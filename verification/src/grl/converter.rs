//! Conversion of YAML rule documents into GRL source text.
//!
//! - `priority` becomes `salience = 1000 - priority` (routing rules, those with
//!   an `upstream_backend`, are capped to `1..=150` so detection runs first);
//! - the scope becomes an extra guard AND-ed to the condition;
//! - the condition becomes a GRL boolean expression;
//! - `risk_score_delta` becomes an assignment, the action a call.
use vstd::prelude::*;

use crate::text::{
    chars_of, debug_quote, debug_quoted, i64_to_decimal, int_to_decimal, push_chars, push_str,
    split_once, split_once_chars, str_eq_chars, string_of, strip_suffix, strip_suffix_chars, trim,
    trim_chars,
};

verus! {

/// A YAML value, as plain data.  Integers are those of `u64` and `i64`; other
/// numbers are kept as their text.
#[derive(Debug)]
pub enum YamlValue {
    Null,
    Bool(bool),
    Int(i128),
    Real(String),
    Str(String),
    List(Vec<YamlValue>),
    Mapping(Vec<(YamlValue, YamlValue)>),
}

// ─── reading values ─────────────────────────────────────────────────────────

/// The position of the first entry whose key is the string `k`.
pub open spec fn entry_index(es: Seq<(YamlValue, YamlValue)>, k: Seq<char>, i: int) -> Option<int>
    decreases es.len() - i,
{
    if i < 0 || i >= es.len() {
        None
    } else if es[i].0 matches YamlValue::Str(s) && s@ == k {
        Some(i)
    } else {
        entry_index(es, k, i + 1)
    }
}

pub proof fn lemma_entry_index(es: Seq<(YamlValue, YamlValue)>, k: Seq<char>, i: int)
    requires
        0 <= i,
    ensures
        entry_index(es, k, i) matches Some(j) ==> i <= j < es.len(),
    decreases es.len() - i,
{
    if i < es.len() && !(es[i].0 matches YamlValue::Str(s) && s@ == k) {
        lemma_entry_index(es, k, i + 1);
    }
}

/// `value.get(k)`: the value under the string key `k` of a mapping.
pub open spec fn yget(v: YamlValue, k: Seq<char>) -> Option<YamlValue> {
    match v {
        YamlValue::Mapping(es) => match entry_index(es@, k, 0) {
            Some(j) => Some(es@[j].1),
            None => None,
        },
        _ => None,
    }
}

/// `value.as_str()`.
pub open spec fn ystr(v: Option<YamlValue>) -> Option<Seq<char>> {
    match v {
        Some(YamlValue::Str(s)) => Some(s@),
        _ => None,
    }
}

/// The text under key `k`, or `""`.
pub open spec fn ystr_or_empty(v: YamlValue, k: Seq<char>) -> Seq<char> {
    match ystr(yget(v, k)) {
        Some(s) => s,
        None => seq![],
    }
}

fn find_entry(es: &Vec<(YamlValue, YamlValue)>, k: &str) -> (r: Option<usize>)
    ensures
        match r {
            Some(j) => entry_index(es@, k@, 0) == Some(j as int) && j < es@.len(),
            None => entry_index(es@, k@, 0) is None,
        },
{
    let kc = chars_of(k);
    let mut i: usize = 0;
    while i < es.len()
        invariant
            i <= es@.len(),
            kc@ == k@,
            entry_index(es@, k@, 0) == entry_index(es@, k@, i as int),
        decreases es.len() - i,
    {
        let hit = match &es[i].0 {
            YamlValue::Str(s) => str_eq_chars(s.as_str(), kc.as_slice()),
            _ => false,
        };
        if hit {
            return Some(i);
        }
        i += 1;
    }
    None
}

/// `value.get(k)`.
pub fn get<'a>(v: &'a YamlValue, k: &str) -> (r: Option<&'a YamlValue>)
    ensures
        match r {
            Some(x) => yget(*v, k@) == Some(*x),
            None => yget(*v, k@) is None,
        },
{
    match v {
        YamlValue::Mapping(es) => match find_entry(es, k) {
            Some(j) => Some(&es[j].1),
            None => None,
        },
        _ => None,
    }
}

fn get_str<'a>(v: &'a YamlValue, k: &str) -> (r: Option<&'a String>)
    ensures
        match r {
            Some(s) => ystr(yget(*v, k@)) == Some(s@),
            None => ystr(yget(*v, k@)) is None,
        },
{
    match get(v, k) {
        Some(YamlValue::Str(s)) => Some(s),
        _ => None,
    }
}

fn get_str_or_empty(v: &YamlValue, k: &str) -> (r: String)
    ensures
        r@ == ystr_or_empty(*v, k@),
{
    match get_str(v, k) {
        Some(s) => s.clone(),
        None => String::new(),
    }
}

// ─── literals and paths ─────────────────────────────────────────────────────

/// A GRL string literal: the text in double quotes, with only the quotes escaped.
pub open spec fn escape_quotes(s: Seq<char>) -> Seq<char>
    decreases s.len(),
{
    if s.len() == 0 {
        seq![]
    } else {
        escape_quotes(s.drop_last()) + if s.last() == '"' {
            seq!['\\', '"']
        } else {
            seq![s.last()]
        }
    }
}

pub open spec fn grl_lit(s: Seq<char>) -> Seq<char> {
    seq!['"'] + escape_quotes(s) + seq!['"']
}

/// Build a GRL string literal.
pub fn grl_string_literal(s: &str) -> (r: String)
    ensures
        r@ == grl_lit(s@),
{
    let cs = chars_of(s);
    let mut out: Vec<char> = Vec::new();
    out.push('"');
    let mut i: usize = 0;
    while i < cs.len()
        invariant
            i <= cs@.len(),
            cs@ == s@,
            out@ == seq!['"'] + escape_quotes(cs@.take(i as int)),
        decreases cs.len() - i,
    {
        let ghost o0 = out@;
        if cs[i] == '"' {
            out.push('\\');
            out.push('"');
        } else {
            out.push(cs[i]);
        }
        assert(cs@.take(i + 1).drop_last() =~= cs@.take(i as int));
        i += 1;
        assert(out@ =~= seq!['"'] + escape_quotes(cs@.take(i as int)));
    }
    out.push('"');
    assert(cs@.take(cs@.len() as int) =~= cs@);
    assert(out@ =~= grl_lit(s@));
    string_of(out.as_slice())
}

/// Regex metacharacters escaped in a path prefix.
pub open spec fn is_meta(c: char) -> bool {
    c == '.' || c == '+' || c == '*' || c == '?' || c == '^' || c == '$' || c == '{' || c == '}'
        || c == '(' || c == ')' || c == '|' || c == '[' || c == ']' || c == '\\'
}

pub open spec fn spec_regex_escape(s: Seq<char>) -> Seq<char>
    decreases s.len(),
{
    if s.len() == 0 {
        seq![]
    } else {
        spec_regex_escape(s.drop_last()) + if is_meta(s.last()) {
            seq!['\\', s.last()]
        } else {
            seq![s.last()]
        }
    }
}

/// Escape the regex metacharacters of `s`.
pub fn regex_escape(s: &str) -> (r: String)
    ensures
        r@ == spec_regex_escape(s@),
{
    let cs = chars_of(s);
    let mut out: Vec<char> = Vec::new();
    let mut i: usize = 0;
    while i < cs.len()
        invariant
            i <= cs@.len(),
            cs@ == s@,
            out@ == spec_regex_escape(cs@.take(i as int)),
        decreases cs.len() - i,
    {
        let c = cs[i];
        let meta = c == '.' || c == '+' || c == '*' || c == '?' || c == '^' || c == '$' || c
            == '{' || c == '}' || c == '(' || c == ')' || c == '|' || c == '[' || c == ']' || c
            == '\\';
        if meta {
            out.push('\\');
        }
        out.push(c);
        assert(cs@.take(i + 1).drop_last() =~= cs@.take(i as int));
        i += 1;
        assert(out@ =~= spec_regex_escape(cs@.take(i as int)));
    }
    assert(cs@.take(cs@.len() as int) =~= cs@);
    string_of(out.as_slice())
}

/// The GRL test of a path glob: `/**` (or `**`) is always true, `/prefix/*` is one
/// more segment under the prefix, `/prefix/**` anything under it, anything else
/// an exact path.
pub open spec fn spec_path_match(p: Seq<char>) -> Seq<char> {
    if p == "/**"@ || p == "**"@ {
        "true"@
    } else {
        match strip_suffix(p, "/*"@) {
            Some(prefix) => "matches(Request.Path, \"^"@ + spec_regex_escape(prefix) + "/[^/]+$\")"@,
            None => match strip_suffix(p, "/**"@) {
                Some(prefix) => "starts_with(Request.Path, "@ + debug_quoted(prefix + "/"@) + ")"@,
                None => "Request.Path == "@ + debug_quoted(p),
            },
        }
    }
}

fn cat(parts: &[&str]) -> (r: Vec<char>)
    ensures
        r@ == cat_spec(parts@),
{
    let mut out: Vec<char> = Vec::new();
    let mut i: usize = 0;
    while i < parts.len()
        invariant
            i <= parts@.len(),
            out@ == cat_spec(parts@.take(i as int)),
        decreases parts.len() - i,
    {
        push_str(&mut out, parts[i]);
        assert(parts@.take(i + 1).drop_last() =~= parts@.take(i as int));
        i += 1;
    }
    assert(parts@.take(parts@.len() as int) =~= parts@);
    out
}

/// The concatenation of the texts.
pub open spec fn cat_spec(parts: Seq<&str>) -> Seq<char>
    decreases parts.len(),
{
    if parts.len() == 0 {
        seq![]
    } else {
        cat_spec(parts.drop_last()) + parts.last()@
    }
}

proof fn lemma_cat2(a: &str, b: &str)
    ensures
        cat_spec(seq![a, b]) == a@ + b@,
{
    reveal_with_fuel(cat_spec, 3);
    assert(seq![a, b].drop_last() =~= seq![a]);
    assert(seq![a].drop_last() =~= Seq::<&str>::empty());
    assert(cat_spec(seq![a]) =~= a@);
}

proof fn lemma_cat3(a: &str, b: &str, c: &str)
    ensures
        cat_spec(seq![a, b, c]) == a@ + b@ + c@,
{
    assert(seq![a, b, c].drop_last() =~= seq![a, b]);
    lemma_cat2(a, b);
}

/// Turn a path glob into a GRL test.
pub fn path_match_grl(p: &str) -> (r: String)
    ensures
        r@ == spec_path_match(p@),
{
    let pc = chars_of(p);
    let all1 = chars_of("/**");
    let all2 = chars_of("**");
    if crate::text::chars_eq(pc.as_slice(), all1.as_slice()) || crate::text::chars_eq(
        pc.as_slice(),
        all2.as_slice(),
    ) {
        let t = chars_of("true");
        return string_of(t.as_slice());
    }
    let one = chars_of("/*");
    match strip_suffix_chars(pc.as_slice(), one.as_slice()) {
        Some(prefix) => {
            let ps = string_of(prefix.as_slice());
            let esc = regex_escape(ps.as_str());
            let e: &str = esc.as_str();
            let out = cat(&["matches(Request.Path, \"^", e, "/[^/]+$\")"]);
            proof {
                lemma_cat3("matches(Request.Path, \"^", e, "/[^/]+$\")");
            }
            return string_of(out.as_slice());
        },
        None => {},
    }
    let two = chars_of("/**");
    match strip_suffix_chars(pc.as_slice(), two.as_slice()) {
        Some(prefix) => {
            let mut pre = prefix;
            pre.push('/');
            let ps = string_of(pre.as_slice());
            let q = debug_quote(ps.as_str());
            let qs: &str = q.as_str();
            let out = cat(&["starts_with(Request.Path, ", qs, ")"]);
            proof {
                lemma_cat3("starts_with(Request.Path, ", qs, ")");
                assert(pre@ =~= prefix@ + "/"@) by {
                    reveal_strlit("/");
                }
            }
            string_of(out.as_slice())
        },
        None => {
            let q = debug_quote(p);
            let qs: &str = q.as_str();
            let out = cat(&["Request.Path == ", qs]);
            proof {
                lemma_cat2("Request.Path == ", qs);
            }
            string_of(out.as_slice())
        },
    }
}

// ─── joining ────────────────────────────────────────────────────────────────

/// The texts joined by `sep`.
pub open spec fn join(ps: Seq<Seq<char>>, sep: Seq<char>) -> Seq<char>
    decreases ps.len(),
{
    if ps.len() == 0 {
        seq![]
    } else if ps.len() == 1 {
        ps[0]
    } else {
        join(ps.drop_last(), sep) + sep + ps.last()
    }
}

pub open spec fn strs_view(v: Seq<String>) -> Seq<Seq<char>> {
    v.map_values(|s: String| s@)
}

fn join_exec(ps: &Vec<String>, sep: &str) -> (r: Vec<char>)
    ensures
        r@ == join(strs_view(ps@), sep@),
{
    let ghost pv = strs_view(ps@);
    let mut out: Vec<char> = Vec::new();
    let mut i: usize = 0;
    while i < ps.len()
        invariant
            i <= ps@.len(),
            pv == strs_view(ps@),
            out@ == join(pv.take(i as int), sep@),
        decreases ps.len() - i,
    {
        if i > 0 {
            push_str(&mut out, sep);
        }
        push_str(&mut out, ps[i].as_str());
        assert(pv.take(i + 1).drop_last() =~= pv.take(i as int));
        proof {
            if i == 0 {
                assert(pv.take(1) =~= seq![pv[0]]);
            }
        }
        i += 1;
        assert(out@ =~= join(pv.take(i as int), sep@));
    }
    assert(pv.take(ps@.len() as int) =~= pv);
    out
}

/// `"(" + parts joined by sep + ")"`.
pub open spec fn group(ps: Seq<Seq<char>>, sep: Seq<char>) -> Seq<char> {
    "("@ + join(ps, sep) + ")"@
}

fn group_exec(ps: &Vec<String>, sep: &str) -> (r: String)
    ensures
        r@ == group(strs_view(ps@), sep@),
{
    let mut out = chars_of("(");
    let j = join_exec(ps, sep);
    push_chars(&mut out, j.as_slice());
    push_str(&mut out, ")");
    string_of(out.as_slice())
}

// ─── field/match/value conditions ───────────────────────────────────────────

/// The GRL test of a `field`/`match`/`value` leaf.
pub open spec fn leaf_text(f: Seq<char>, m: Seq<char>, v: Seq<char>) -> Seq<char> {
    if f == "ip"@ && m == "exact"@ {
        "Request.ClientIp == "@ + grl_lit(v)
    } else if f == "ip"@ && m == "cidr"@ {
        "contains(Request.ClientIp, "@ + grl_lit(v) + ")"@
    } else if f == "path"@ && m == "exact"@ {
        "Request.Path == "@ + grl_lit(v)
    } else if f == "path"@ && m == "wildcard"@ {
        spec_path_match(v)
    } else if f == "path"@ && m == "regex"@ {
        "matches(Request.Path, "@ + grl_lit(v) + ")"@
    } else if f == "method"@ && m == "exact"@ {
        "Request.Method == "@ + grl_lit(v)
    } else if f == "method"@ && m == "regex"@ {
        "matches(Request.Method, "@ + grl_lit(v) + ")"@
    } else if f == "header"@ && m == "exact"@ {
        match split_once(v, ':') {
            Some((name, val)) => "Request.Headers["@ + grl_lit(name) + "] == "@ + grl_lit(trim(val)),
            None => "has_header(Request, "@ + grl_lit(v) + ")"@,
        }
    } else if f == "header"@ && m == "regex"@ {
        match split_once(v, ':') {
            Some((name, pat)) => "matches(Request.Headers["@ + grl_lit(trim(name)) + "], "@
                + grl_lit(trim(pat)) + ")"@,
            None => "false /* invalid header regex: "@ + v + " */"@,
        }
    } else if f == "payload"@ && m == "regex"@ {
        "matches(Request.Body, "@ + grl_lit(v) + ")"@
    } else if f == "payload"@ && m == "contains"@ {
        "contains(Request.Body, "@ + grl_lit(v) + ")"@
    } else if f == "cookie"@ && m == "exact"@ {
        match split_once(v, '=') {
            Some((name, val)) => "contains(Request.Headers[\"Cookie\"], "@ + grl_lit(
                trim(name) + "="@ + trim(val),
            ) + ")"@,
            None => "false /* invalid cookie: "@ + v + " */"@,
        }
    } else {
        "false /* unknown field/match: "@ + f + "/"@ + m + " */"@
    }
}

fn is(a: &str, b: &str) -> (r: bool)
    ensures
        r == (a@ == b@),
{
    let bc = chars_of(b);
    str_eq_chars(a, bc.as_slice())
}

fn cat_s(parts: &[&str]) -> (r: String)
    ensures
        r@ == cat_spec(parts@),
{
    let v = cat(parts);
    string_of(v.as_slice())
}

fn leaf_text_exec(f: &str, m: &str, v: &str) -> (r: String)
    ensures
        r@ == leaf_text(f@, m@, v@),
{
    reveal_with_fuel(cat_spec, 8);
    if is(f, "ip") && is(m, "exact") {
        let l = grl_string_literal(v);
        let ls: &str = l.as_str();
        cat_s(&["Request.ClientIp == ", ls])
    } else if is(f, "ip") && is(m, "cidr") {
        let l = grl_string_literal(v);
        let ls: &str = l.as_str();
        cat_s(&["contains(Request.ClientIp, ", ls, ")"])
    } else if is(f, "path") && is(m, "exact") {
        let l = grl_string_literal(v);
        let ls: &str = l.as_str();
        cat_s(&["Request.Path == ", ls])
    } else if is(f, "path") && is(m, "wildcard") {
        path_match_grl(v)
    } else if is(f, "path") && is(m, "regex") {
        let l = grl_string_literal(v);
        let ls: &str = l.as_str();
        cat_s(&["matches(Request.Path, ", ls, ")"])
    } else if is(f, "method") && is(m, "exact") {
        let l = grl_string_literal(v);
        let ls: &str = l.as_str();
        cat_s(&["Request.Method == ", ls])
    } else if is(f, "method") && is(m, "regex") {
        let l = grl_string_literal(v);
        let ls: &str = l.as_str();
        cat_s(&["matches(Request.Method, ", ls, ")"])
    } else if is(f, "header") && is(m, "exact") {
        let vc = chars_of(v);
        match split_once_chars(vc.as_slice(), ':') {
            Some((name, val)) => {
                let n = string_of(name.as_slice());
                let t = trim_chars(val.as_slice());
                let ts = string_of(t.as_slice());
                let ln = grl_string_literal(n.as_str());
                let lv = grl_string_literal(ts.as_str());
                let a: &str = ln.as_str();
                let b: &str = lv.as_str();
                cat_s(&["Request.Headers[", a, "] == ", b])
            },
            None => {
                let l = grl_string_literal(v);
                let ls: &str = l.as_str();
                cat_s(&["has_header(Request, ", ls, ")"])
            },
        }
    } else if is(f, "header") && is(m, "regex") {
        let vc = chars_of(v);
        match split_once_chars(vc.as_slice(), ':') {
            Some((name, pat)) => {
                let tn = trim_chars(name.as_slice());
                let tp = trim_chars(pat.as_slice());
                let n = string_of(tn.as_slice());
                let p = string_of(tp.as_slice());
                let ln = grl_string_literal(n.as_str());
                let lp = grl_string_literal(p.as_str());
                let a: &str = ln.as_str();
                let b: &str = lp.as_str();
                cat_s(&["matches(Request.Headers[", a, "], ", b, ")"])
            },
            None => cat_s(&["false /* invalid header regex: ", v, " */"]),
        }
    } else if is(f, "payload") && is(m, "regex") {
        let l = grl_string_literal(v);
        let ls: &str = l.as_str();
        cat_s(&["matches(Request.Body, ", ls, ")"])
    } else if is(f, "payload") && is(m, "contains") {
        let l = grl_string_literal(v);
        let ls: &str = l.as_str();
        cat_s(&["contains(Request.Body, ", ls, ")"])
    } else if is(f, "cookie") && is(m, "exact") {
        let vc = chars_of(v);
        match split_once_chars(vc.as_slice(), '=') {
            Some((name, val)) => {
                let mut needle = trim_chars(name.as_slice());
                let ghost tn = needle@;
                needle.push('=');
                let tv = trim_chars(val.as_slice());
                push_chars(&mut needle, tv.as_slice());
                proof {
                    reveal_strlit("=");
                    assert(needle@ =~= tn + "="@ + tv@);
                }
                let ns = string_of(needle.as_slice());
                let l = grl_string_literal(ns.as_str());
                let ls: &str = l.as_str();
                cat_s(&["contains(Request.Headers[\"Cookie\"], ", ls, ")"])
            },
            None => cat_s(&["false /* invalid cookie: ", v, " */"]),
        }
    } else {
        cat_s(&["false /* unknown field/match: ", f, "/", m, " */"])
    }
}

// ─── condition trees ────────────────────────────────────────────────────────

/// The list stored under key `k` of a mapping's entries, when it is a list.
pub open spec fn list_under(es: Seq<(YamlValue, YamlValue)>, k: Seq<char>) -> Option<Vec<YamlValue>> {
    match entry_index(es, k, 0) {
        Some(j) => match es[j].1 {
            YamlValue::List(v) => Some(v),
            _ => None,
        },
        None => None,
    }
}

pub proof fn lemma_list_under(c: YamlValue, k: Seq<char>)
    requires
        c is Mapping,
        list_under(c->Mapping_0@, k) is Some,
    ensures
        decreases_to!(c => list_under(c->Mapping_0@, k)->Some_0),
{
    let es = c->Mapping_0;
    lemma_entry_index(es@, k, 0);
    let j = entry_index(es@, k, 0)->Some_0;
    let v = es@[j].1->List_0;
    assert(decreases_to!(c => es));
    assert(decreases_to!(es => es@));
    assert(decreases_to!(es@ => es@[j]));
    assert(decreases_to!(es@[j] => es@[j].1));
    assert(decreases_to!(es@[j].1 => v));
    assert(decreases_to!(c => v));
}

pub proof fn lemma_yget(c: YamlValue, k: Seq<char>)
    ensures
        yget(c, k) matches Some(x) ==> decreases_to!(c => x),
{
    if let YamlValue::Mapping(es) = c {
        lemma_entry_index(es@, k, 0);
        if let Some(j) = entry_index(es@, k, 0) {
            assert(decreases_to!(c => es));
            assert(decreases_to!(es => es@));
            assert(decreases_to!(es@ => es@[j]));
            assert(decreases_to!(es@[j] => es@[j].1));
            assert(decreases_to!(c => es@[j].1));
        }
    }
}

fn list_under_exec<'a>(es: &'a Vec<(YamlValue, YamlValue)>, k: &str) -> (r: Option<&'a Vec<YamlValue>>)
    ensures
        match r {
            Some(v) => list_under(es@, k@) == Some(*v),
            None => list_under(es@, k@) is None,
        },
{
    match find_entry(es, k) {
        Some(j) => match &es[j].1 {
            YamlValue::List(v) => Some(v),
            _ => None,
        },
        None => None,
    }
}

/// The field/match/value conversion of a list (`None` when an item fails).
pub open spec fn new_parts(items: Seq<YamlValue>) -> Option<Seq<Seq<char>>>
    decreases items,
{
    if items.len() == 0 {
        Some(seq![])
    } else {
        proof {
            assert(items.drop_first() =~= items.subrange(1, items.len() as int));
        }
        match (spec_new_cond(items[0]), new_parts(items.drop_first())) {
            (Some(a), Some(rest)) => Some(seq![a] + rest),
            _ => None,
        }
    }
}

/// The field/match/value conversion of a condition: `and`/`or` lists become
/// grouped conjunctions/disjunctions, a leaf needs `field` and `match`.
pub open spec fn spec_new_cond(c: YamlValue) -> Option<Seq<char>>
    decreases c,
{
    match c {
        YamlValue::Mapping(es) => match list_under(es@, "and"@) {
            Some(v) => {
                proof {
                    lemma_list_under(c, "and"@);
                    assert(decreases_to!(v => v@));
                }
                match new_parts(v@) {
                    Some(ps) => Some(group(ps, " && "@)),
                    None => None,
                }
            },
            None => match list_under(es@, "or"@) {
                Some(v) => {
                    proof {
                        lemma_list_under(c, "or"@);
                        assert(decreases_to!(v => v@));
                    }
                    match new_parts(v@) {
                        Some(ps) => Some(group(ps, " || "@)),
                        None => None,
                    }
                },
                None => match (ystr(yget(c, "field"@)), ystr(yget(c, "match"@))) {
                    (Some(f), Some(m)) => Some(leaf_text(f, m, ystr_or_empty(c, "value"@))),
                    _ => None,
                },
            },
        },
        _ => None,
    }
}

fn new_parts_exec(items: &Vec<YamlValue>) -> (r: Option<Vec<String>>)
    ensures
        match r {
            Some(ps) => new_parts(items@) == Some(strs_view(ps@)),
            None => new_parts(items@) is None,
        },
    decreases items, 1nat,
{
    let mut out: Vec<String> = Vec::new();
    let mut i: usize = 0;
    assert(items@.skip(0) =~= items@);
    while i < items.len()
        invariant
            i <= items@.len(),
            new_parts(items@) == (match new_parts(items@.skip(i as int)) {
                Some(rest) => Some(strs_view(out@) + rest),
                None => None::<Seq<Seq<char>>>,
            }),
        decreases items.len() - i,
    {
        proof {
            assert(decreases_to!(*items => items@));
            assert(decreases_to!(items@ => items@[i as int]));
            assert(items@.skip(i as int).drop_first() =~= items@.skip(i + 1));
            assert(items@.skip(i as int)[0] == items@[i as int]);
        }
        match new_cond_to_grl(&items[i]) {
            Some(g) => {
                let ghost o0 = strs_view(out@);
                let ghost gv = g@;
                out.push(g);
                assert(strs_view(out@) =~= o0.push(gv));
                proof {
                    match new_parts(items@.skip(i + 1)) {
                        Some(rest) => {
                            assert(o0 + (seq![gv] + rest) =~= o0.push(gv) + rest);
                        },
                        None => {},
                    }
                }
            },
            None => {
                return None;
            },
        }
        i += 1;
    }
    assert(items@.skip(i as int) =~= Seq::<YamlValue>::empty());
    assert(strs_view(out@) + Seq::<Seq<char>>::empty() =~= strs_view(out@));
    Some(out)
}

/// Convert a condition in the field/match/value format.
pub fn new_cond_to_grl(c: &YamlValue) -> (r: Option<String>)
    ensures
        match r {
            Some(g) => spec_new_cond(*c) == Some(g@),
            None => spec_new_cond(*c) is None,
        },
    decreases c, 0nat,
{
    match c {
        YamlValue::Mapping(es) => {
            match list_under_exec(es, "and") {
                Some(v) => {
                    proof {
                        lemma_list_under(*c, "and"@);
                    }
                    return match new_parts_exec(v) {
                        Some(ps) => Some(group_exec(&ps, " && ")),
                        None => None,
                    };
                },
                None => {},
            }
            match list_under_exec(es, "or") {
                Some(v) => {
                    proof {
                        lemma_list_under(*c, "or"@);
                    }
                    return match new_parts_exec(v) {
                        Some(ps) => Some(group_exec(&ps, " || ")),
                        None => None,
                    };
                },
                None => {},
            }
            match (get_str(c, "field"), get_str(c, "match")) {
                (Some(f), Some(m)) => {
                    let v = get_str_or_empty(c, "value");
                    Some(leaf_text_exec(f.as_str(), m.as_str(), v.as_str()))
                },
                _ => None,
            }
        },
        _ => None,
    }
}

// ─── type-tagged conditions ─────────────────────────────────────────────────

/// The GRL test of a type-tagged leaf condition of kind `kind`.
pub open spec fn legacy_leaf(c: YamlValue, kind: Seq<char>) -> Seq<char> {
    let value = ystr_or_empty(c, "value"@);
    let pattern = ystr_or_empty(c, "pattern"@);
    let name = ystr_or_empty(c, "name"@);
    if kind == "ip_exact"@ {
        "Request.ClientIp == "@ + debug_quoted(value)
    } else if kind == "ip_in_blacklist"@ {
        "ip_in_blacklist(Request.ClientIp)"@
    } else if kind == "ip_in_whitelist"@ {
        "ip_in_whitelist(Request.ClientIp)"@
    } else if kind == "path_exact"@ {
        "Request.Path == "@ + debug_quoted(value)
    } else if kind == "path_wildcard"@ {
        spec_path_match(pattern)
    } else if kind == "path_regex"@ {
        "matches(Request.Path, "@ + debug_quoted(pattern) + ")"@
    } else if kind == "header_exact"@ {
        "Request.Headers["@ + debug_quoted(name) + "] == "@ + debug_quoted(value)
    } else if kind == "header_regex"@ {
        "matches(Request.Headers["@ + debug_quoted(name) + "], "@ + debug_quoted(pattern) + ")"@
    } else if kind == "payload_regex"@ {
        "(matches(Request.Body, "@ + debug_quoted(pattern) + ") || matches(Request.Query, "@
            + debug_quoted(pattern) + "))"@
    } else if kind == "cookie_exact"@ {
        "contains(Request.Headers[\"Cookie\"], "@ + debug_quoted(name + "="@ + value) + ")"@
    } else if kind == "rate_limit_exceeded"@ {
        "false"@
    } else if kind == "sqli_pattern"@ {
        "(contains_sqli(Request.Query) || contains_sqli(Request.Body))"@
    } else if kind == "xss_pattern"@ {
        "(contains_xss(Request.Query) || contains_xss(Request.Body))"@
    } else if kind == "path_traversal_pattern"@ {
        "contains_path_traversal(Request.Path)"@
    } else if kind == "ssrf_pattern"@ {
        "(contains(Request.Query, \"http://\") || contains(Request.Query, \"file://\") || contains(Request.Query, \"169.254.169.254\"))"@
    } else if kind == "header_injection_pattern"@ {
        "(contains_header_injection(Request.Path) || contains_header_injection(Request.Query))"@
    } else {
        "false /* unknown condition: "@ + kind + " */"@
    }
}

/// The conversion of a list of conditions (`None` when one fails).
pub open spec fn cond_parts(items: Seq<YamlValue>) -> Option<Seq<Seq<char>>>
    decreases items,
{
    if items.len() == 0 {
        Some(seq![])
    } else {
        proof {
            assert(items.drop_first() =~= items.subrange(1, items.len() as int));
        }
        match (spec_cond(items[0]), cond_parts(items.drop_first())) {
            (Some(a), Some(rest)) => Some(seq![a] + rest),
            _ => None,
        }
    }
}

/// The GRL expression of a condition: the field/match/value format when it
/// applies, else the type-tagged format (`and`/`or` over `conditions`, `not`
/// over `condition`).
pub open spec fn spec_cond(c: YamlValue) -> Option<Seq<char>>
    decreases c,
{
    match spec_new_cond(c) {
        Some(g) => Some(g),
        None => match c {
            YamlValue::Mapping(es) => match ystr(yget(c, "type"@)) {
                None => None,
                Some(kind) => if kind == "and"@ || kind == "or"@ {
                    match list_under(es@, "conditions"@) {
                        Some(v) => {
                            proof {
                                lemma_list_under(c, "conditions"@);
                                assert(decreases_to!(v => v@));
                            }
                            match cond_parts(v@) {
                                Some(ps) => Some(
                                    group(
                                        ps,
                                        if kind == "and"@ {
                                            " && "@
                                        } else {
                                            " || "@
                                        },
                                    ),
                                ),
                                None => None,
                            }
                        },
                        None => None,
                    }
                } else if kind == "not"@ {
                    match yget(c, "condition"@) {
                        Some(inner) => {
                            proof {
                                lemma_yget(c, "condition"@);
                            }
                            match spec_cond(inner) {
                                Some(g) => Some("!("@ + g + ")"@),
                                None => None,
                            }
                        },
                        None => None,
                    }
                } else {
                    Some(legacy_leaf(c, kind))
                },
            },
            _ => None,
        },
    }
}

fn dq(s: &str) -> (r: String)
    ensures
        r@ == debug_quoted(s@),
{
    debug_quote(s)
}

fn legacy_leaf_exec(c: &YamlValue, kind: &str) -> (r: String)
    ensures
        r@ == legacy_leaf(*c, kind@),
{
    reveal_with_fuel(cat_spec, 8);
    let value = get_str_or_empty(c, "value");
    let pattern = get_str_or_empty(c, "pattern");
    let name = get_str_or_empty(c, "name");
    if is(kind, "ip_exact") {
        let q = dq(value.as_str());
        let qs: &str = q.as_str();
        cat_s(&["Request.ClientIp == ", qs])
    } else if is(kind, "ip_in_blacklist") {
        text("ip_in_blacklist(Request.ClientIp)")
    } else if is(kind, "ip_in_whitelist") {
        text("ip_in_whitelist(Request.ClientIp)")
    } else if is(kind, "path_exact") {
        let q = dq(value.as_str());
        let qs: &str = q.as_str();
        cat_s(&["Request.Path == ", qs])
    } else if is(kind, "path_wildcard") {
        path_match_grl(pattern.as_str())
    } else if is(kind, "path_regex") {
        let q = dq(pattern.as_str());
        let qs: &str = q.as_str();
        cat_s(&["matches(Request.Path, ", qs, ")"])
    } else if is(kind, "header_exact") {
        let qn = dq(name.as_str());
        let qv = dq(value.as_str());
        let a: &str = qn.as_str();
        let b: &str = qv.as_str();
        cat_s(&["Request.Headers[", a, "] == ", b])
    } else if is(kind, "header_regex") {
        let qn = dq(name.as_str());
        let qp = dq(pattern.as_str());
        let a: &str = qn.as_str();
        let b: &str = qp.as_str();
        cat_s(&["matches(Request.Headers[", a, "], ", b, ")"])
    } else if is(kind, "payload_regex") {
        let qp = dq(pattern.as_str());
        let a: &str = qp.as_str();
        cat_s(&["(matches(Request.Body, ", a, ") || matches(Request.Query, ", a, "))"])
    } else if is(kind, "cookie_exact") {
        let needle = cat_s(&[name.as_str(), "=", value.as_str()]);
        let q = dq(needle.as_str());
        let qs: &str = q.as_str();
        cat_s(&["contains(Request.Headers[\"Cookie\"], ", qs, ")"])
    } else if is(kind, "rate_limit_exceeded") {
        text("false")
    } else if is(kind, "sqli_pattern") {
        text("(contains_sqli(Request.Query) || contains_sqli(Request.Body))")
    } else if is(kind, "xss_pattern") {
        text("(contains_xss(Request.Query) || contains_xss(Request.Body))")
    } else if is(kind, "path_traversal_pattern") {
        text("contains_path_traversal(Request.Path)")
    } else if is(kind, "ssrf_pattern") {
        text(
            "(contains(Request.Query, \"http://\") || contains(Request.Query, \"file://\") || contains(Request.Query, \"169.254.169.254\"))",
        )
    } else if is(kind, "header_injection_pattern") {
        text("(contains_header_injection(Request.Path) || contains_header_injection(Request.Query))")
    } else {
        cat_s(&["false /* unknown condition: ", kind, " */"])
    }
}

fn text(s: &str) -> (r: String)
    ensures
        r@ == s@,
{
    let c = chars_of(s);
    string_of(c.as_slice())
}

fn cond_parts_exec(items: &Vec<YamlValue>) -> (r: Option<Vec<String>>)
    ensures
        match r {
            Some(ps) => cond_parts(items@) == Some(strs_view(ps@)),
            None => cond_parts(items@) is None,
        },
    decreases items, 1nat,
{
    let mut out: Vec<String> = Vec::new();
    let mut i: usize = 0;
    assert(items@.skip(0) =~= items@);
    while i < items.len()
        invariant
            i <= items@.len(),
            cond_parts(items@) == (match cond_parts(items@.skip(i as int)) {
                Some(rest) => Some(strs_view(out@) + rest),
                None => None::<Seq<Seq<char>>>,
            }),
        decreases items.len() - i,
    {
        proof {
            assert(decreases_to!(*items => items@));
            assert(decreases_to!(items@ => items@[i as int]));
            assert(items@.skip(i as int).drop_first() =~= items@.skip(i + 1));
            assert(items@.skip(i as int)[0] == items@[i as int]);
        }
        match cond_to_grl(&items[i]) {
            Some(g) => {
                let ghost o0 = strs_view(out@);
                let ghost gv = g@;
                out.push(g);
                assert(strs_view(out@) =~= o0.push(gv));
                proof {
                    match cond_parts(items@.skip(i + 1)) {
                        Some(rest) => {
                            assert(o0 + (seq![gv] + rest) =~= o0.push(gv) + rest);
                        },
                        None => {},
                    }
                }
            },
            None => {
                return None;
            },
        }
        i += 1;
    }
    assert(items@.skip(i as int) =~= Seq::<YamlValue>::empty());
    assert(strs_view(out@) + Seq::<Seq<char>>::empty() =~= strs_view(out@));
    Some(out)
}

/// Convert a condition (either format) into a GRL boolean expression.
pub fn cond_to_grl(c: &YamlValue) -> (r: Option<String>)
    ensures
        match r {
            Some(g) => spec_cond(*c) == Some(g@),
            None => spec_cond(*c) is None,
        },
    decreases c, 0nat,
{
    match new_cond_to_grl(c) {
        Some(g) => {
            return Some(g);
        },
        None => {},
    }
    match c {
        YamlValue::Mapping(es) => {
            let kind = match get_str(c, "type") {
                Some(k) => k,
                None => {
                    return None;
                },
            };
            if is(kind.as_str(), "and") || is(kind.as_str(), "or") {
                match list_under_exec(es, "conditions") {
                    Some(v) => {
                        proof {
                            lemma_list_under(*c, "conditions"@);
                        }
                        match cond_parts_exec(v) {
                            Some(ps) => {
                                let sep = if is(kind.as_str(), "and") {
                                    " && "
                                } else {
                                    " || "
                                };
                                Some(group_exec(&ps, sep))
                            },
                            None => None,
                        }
                    },
                    None => None,
                }
            } else if is(kind.as_str(), "not") {
                match get(c, "condition") {
                    Some(inner) => {
                        proof {
                            lemma_yget(*c, "condition"@);
                        }
                        match cond_to_grl(inner) {
                            Some(g) => {
                                reveal_with_fuel(cat_spec, 4);
                                let gs: &str = g.as_str();
                                Some(cat_s(&["!(", gs, ")"]))
                            },
                            None => None,
                        }
                    },
                    None => None,
                }
            } else {
                Some(legacy_leaf_exec(c, kind.as_str()))
            }
        },
        _ => None,
    }
}

// ─── scopes and rules ───────────────────────────────────────────────────────

/// The guard a rule's scope adds: none for a global scope (or one that is not
/// understood), a tier, route or client-IP test otherwise.
pub open spec fn spec_scope(scope: Option<YamlValue>) -> Option<Seq<char>> {
    match scope {
        None => None,
        Some(YamlValue::Str(s)) => if s@ == "global"@ {
            None
        } else {
            Some("Request.Tier == "@ + debug_quoted(s@))
        },
        Some(x) => if x is Mapping {
            match ystr(yget(x, "type"@)) {
                None => None,
                Some(kind) => if kind == "tier"@ {
                    match ystr(yget(x, "tier"@)) {
                        Some(t) => Some("Request.Tier == "@ + debug_quoted(t)),
                        None => None,
                    }
                } else if kind == "route_pattern"@ {
                    match ystr(yget(x, "pattern"@)) {
                        Some(p) => Some(spec_path_match(p)),
                        None => None,
                    }
                } else if kind == "ip"@ {
                    match ystr(yget(x, "ip"@)) {
                        Some(ip) => Some("Request.ClientIp == "@ + debug_quoted(ip)),
                        None => None,
                    }
                } else {
                    None
                },
            }
        } else {
            None
        },
    }
}

fn scope_to_grl(scope: Option<&YamlValue>) -> (r: Option<String>)
    ensures
        match r {
            Some(g) => spec_scope(match scope {
                Some(x) => Some(*x),
                None => None,
            }) == Some(g@),
            None => spec_scope(match scope {
                Some(x) => Some(*x),
                None => None,
            }) is None,
        },
{
    reveal_with_fuel(cat_spec, 4);
    let x = match scope {
        Some(x) => x,
        None => {
            return None;
        },
    };
    match x {
        YamlValue::Str(s) => {
            if is(s.as_str(), "global") {
                return None;
            }
            let q = dq(s.as_str());
            let qs: &str = q.as_str();
            return Some(cat_s(&["Request.Tier == ", qs]));
        },
        YamlValue::Mapping(_) => {},
        _ => {
            return None;
        },
    }
    let kind = match get_str(x, "type") {
        Some(k) => k,
        None => {
            return None;
        },
    };
    if is(kind.as_str(), "tier") {
        match get_str(x, "tier") {
            Some(t) => {
                let q = dq(t.as_str());
                let qs: &str = q.as_str();
                Some(cat_s(&["Request.Tier == ", qs]))
            },
            None => None,
        }
    } else if is(kind.as_str(), "route_pattern") {
        match get_str(x, "pattern") {
            Some(p) => Some(path_match_grl(p.as_str())),
            None => None,
        }
    } else if is(kind.as_str(), "ip") {
        match get_str(x, "ip") {
            Some(ip) => {
                let q = dq(ip.as_str());
                let qs: &str = q.as_str();
                Some(cat_s(&["Request.ClientIp == ", qs]))
            },
            None => None,
        }
    } else {
        None
    }
}

/// `value.as_u64()`.
pub open spec fn yu64(v: Option<YamlValue>) -> Option<u64> {
    match v {
        Some(YamlValue::Int(n)) => if 0 <= n <= u64::MAX {
            Some(n as u64)
        } else {
            None
        },
        _ => None,
    }
}

/// `value.as_i64()`.
pub open spec fn yi64(v: Option<YamlValue>) -> Option<i64> {
    match v {
        Some(YamlValue::Int(n)) => if i64::MIN <= n <= i64::MAX {
            Some(n as i64)
        } else {
            None
        },
        _ => None,
    }
}

/// The salience of a rule of the given priority: `1000 - priority` (with
/// two's-complement wrap-around), clamped to `1..=150` for a routing rule, then
/// narrowed to `i32`.
pub open spec fn spec_salience(priority: i64, routed: bool) -> i32 {
    let d = (1000 - priority) as i64;
    (if routed {
        if d < 1 {
            1
        } else if d > 150 {
            150
        } else {
            d
        }
    } else {
        d
    }) as i32
}

/// The statement of a rule's action.
pub open spec fn action_stmt(action: Seq<char>, id: Seq<char>) -> Seq<char> {
    if action == "block"@ {
        "    block("@ + debug_quoted(id) + ");\n"@
    } else if action == "challenge"@ {
        "    challenge(\"js\");\n"@
    } else if action == "rate_limit"@ {
        "    rate_limit(60);\n"@
    } else if action == "allow"@ {
        "    allow();\n"@
    } else if action == "log"@ {
        "    log("@ + debug_quoted(id) + ");\n"@
    } else {
        "    log(\"unknown_action:"@ + action + "\");\n"@
    }
}

/// The GRL text of one YAML rule (`None` without a string `id` or a condition
/// that converts).
pub open spec fn spec_rule(v: YamlValue) -> Option<Seq<char>> {
    match ystr(yget(v, "id"@)) {
        None => None,
        Some(id) => {
            let priority: i64 = match yu64(yget(v, "priority"@)) {
                Some(p) => p as i64,
                None => 500,
            };
            let action = match ystr(yget(v, "action"@)) {
                Some(a) => a,
                None => "log"@,
            };
            let delta: i64 = match yi64(yget(v, "risk_score_delta"@)) {
                Some(d) => d,
                None => 0,
            };
            let upstream = ystr(yget(v, "upstream_backend"@));
            let salience = spec_salience(priority, upstream is Some);
            match yget(v, "condition"@) {
                None => None,
                Some(c) => match spec_cond(c) {
                    None => None,
                    Some(cond) => {
                        let when = match spec_scope(yget(v, "scope"@)) {
                            Some(s) => "("@ + s + ") && ("@ + cond + ")"@,
                            None => cond,
                        };
                        let then = (if delta != 0 {
                            "    Request.RiskScore = Request.RiskScore + "@ + int_to_decimal(
                                delta as int,
                            ) + ";\n"@
                        } else {
                            seq![]
                        }) + (match upstream {
                            Some(b) => "    log(\"route:"@ + b + "\");\n"@,
                            None => seq![],
                        }) + action_stmt(action, id);
                        Some(
                            "rule "@ + debug_quoted(id) + " salience "@ + int_to_decimal(
                                salience as int,
                            ) + " {\n    when "@ + when + "\n    then\n"@ + then + "}\n"@,
                        )
                    },
                },
            }
        },
    }
}

fn action_stmt_exec(action: &str, id: &str) -> (r: Vec<char>)
    ensures
        r@ == action_stmt(action@, id@),
{
    reveal_with_fuel(cat_spec, 4);
    if is(action, "block") {
        let q = dq(id);
        let qs: &str = q.as_str();
        cat(&["    block(", qs, ");\n"])
    } else if is(action, "challenge") {
        chars_of("    challenge(\"js\");\n")
    } else if is(action, "rate_limit") {
        chars_of("    rate_limit(60);\n")
    } else if is(action, "allow") {
        chars_of("    allow();\n")
    } else if is(action, "log") {
        let q = dq(id);
        let qs: &str = q.as_str();
        cat(&["    log(", qs, ");\n"])
    } else {
        cat(&["    log(\"unknown_action:", action, "\");\n"])
    }
}

fn int_text(v: i64) -> (r: String)
    ensures
        r@ == int_to_decimal(v as int),
{
    let d = i64_to_decimal(v);
    string_of(d.as_slice())
}

fn yu64_of(v: Option<&YamlValue>) -> (r: Option<u64>)
    ensures
        r == yu64(match v {
            Some(x) => Some(*x),
            None => None,
        }),
{
    match v {
        Some(YamlValue::Int(n)) => if 0 <= *n && *n <= u64::MAX as i128 {
            Some(*n as u64)
        } else {
            None
        },
        _ => None,
    }
}

fn yi64_of(v: Option<&YamlValue>) -> (r: Option<i64>)
    ensures
        r == yi64(match v {
            Some(x) => Some(*x),
            None => None,
        }),
{
    match v {
        Some(YamlValue::Int(n)) => if i64::MIN as i128 <= *n && *n <= i64::MAX as i128 {
            Some(*n as i64)
        } else {
            None
        },
        _ => None,
    }
}

/// Convert one YAML rule into a GRL rule.
#[verifier::spinoff_prover]
#[verifier::rlimit(40)]
pub fn rule_to_grl(v: &YamlValue) -> (r: Option<String>)
    ensures
        match r {
            Some(g) => spec_rule(*v) == Some(g@),
            None => spec_rule(*v) is None,
        },
{
    reveal_with_fuel(cat_spec, 11);
    let id = match get_str(v, "id") {
        Some(s) => s,
        None => {
            return None;
        },
    };
    let priority: i64 = match yu64_of(get(v, "priority")) {
        Some(p) => p as i64,
        None => 500,
    };
    let action: String = match get_str(v, "action") {
        Some(a) => a.clone(),
        None => text("log"),
    };
    let delta: i64 = match yi64_of(get(v, "risk_score_delta")) {
        Some(d) => d,
        None => 0,
    };
    let upstream = get_str(v, "upstream_backend");
    let d: i64 = (1000i128 - priority as i128) as i64;
    let clamped: i64 = match upstream {
        Some(_) => if d < 1 {
            1
        } else if d > 150 {
            150
        } else {
            d
        },
        None => d,
    };
    let salience: i32 = clamped as i32;
    assert(salience == spec_salience(priority, upstream is Some));
    let cond = match get(v, "condition") {
        None => {
            return None;
        },
        Some(c) => match cond_to_grl(c) {
            None => {
                return None;
            },
            Some(g) => g,
        },
    };
    let when: String = match scope_to_grl(get(v, "scope")) {
        Some(s) => {
            let ss: &str = s.as_str();
            let cs: &str = cond.as_str();
            cat_s(&["(", ss, ") && (", cs, ")"])
        },
        None => cond,
    };
    let mut then: Vec<char> = Vec::new();
    if delta != 0 {
        let dt = int_text(delta);
        let ds: &str = dt.as_str();
        let part = cat(&["    Request.RiskScore = Request.RiskScore + ", ds, ";\n"]);
        push_chars(&mut then, part.as_slice());
    }
    match upstream {
        Some(b) => {
            let bs: &str = b.as_str();
            let part = cat(&["    log(\"route:", bs, "\");\n"]);
            push_chars(&mut then, part.as_slice());
        },
        None => {},
    }
    let st = action_stmt_exec(action.as_str(), id.as_str());
    push_chars(&mut then, st.as_slice());
    let then_s = string_of(then.as_slice());
    let qid = dq(id.as_str());
    let sal = int_text(salience as i64);
    let a: &str = qid.as_str();
    let b: &str = sal.as_str();
    let w: &str = when.as_str();
    let t: &str = then_s.as_str();
    let out = cat_s(&["rule ", a, " salience ", b, " {\n    when ", w, "\n    then\n", t, "}\n"]);
    assert(then_s@ =~= (if delta != 0 {
        "    Request.RiskScore = Request.RiskScore + "@ + int_to_decimal(delta as int) + ";\n"@
    } else {
        seq![]
    }) + (match ystr(yget(*v, "upstream_backend"@)) {
        Some(bb) => "    log(\"route:"@ + bb + "\");\n"@,
        None => seq![],
    }) + action_stmt(action@, id@));
    Some(out)
}

/// The GRL source of the rules of a document: each rule that converts, followed
/// by a newline (a rule that does not convert is skipped).
pub open spec fn rules_text(items: Seq<YamlValue>) -> Seq<char>
    decreases items.len(),
{
    if items.len() == 0 {
        seq![]
    } else {
        rules_text(items.drop_last()) + match spec_rule(items.last()) {
            Some(s) => s + seq!['\n'],
            None => seq![],
        }
    }
}

/// The error for a document that is not a list of rules.
pub open spec fn not_a_sequence() -> Seq<char> {
    "yaml rules: top-level must be a sequence"@
}

/// Convert a YAML document (a list of rule mappings) into GRL source; an error
/// when the document is not a list.
pub fn yaml_to_grl(doc: &YamlValue) -> (r: Result<String, String>)
    ensures
        match doc {
            YamlValue::List(items) => r matches Ok(g) && g@ == rules_text(items@),
            _ => r matches Err(e) && e@ == not_a_sequence(),
        },
{
    let items = match doc {
        YamlValue::List(items) => items,
        _ => {
            let m = chars_of("yaml rules: top-level must be a sequence");
            return Err(string_of(m.as_slice()));
        },
    };
    let mut out: Vec<char> = Vec::new();
    let mut i: usize = 0;
    while i < items.len()
        invariant
            i <= items@.len(),
            out@ == rules_text(items@.take(i as int)),
        decreases items.len() - i,
    {
        let ghost o0 = out@;
        match rule_to_grl(&items[i]) {
            Some(s) => {
                push_str(&mut out, s.as_str());
                out.push('\n');
            },
            None => {},
        }
        assert(items@.take(i + 1).drop_last() =~= items@.take(i as int));
        assert(items@.take(i + 1).last() == items@[i as int]);
        i += 1;
        assert(out@ =~= rules_text(items@.take(i as int)));
    }
    assert(items@.take(items@.len() as int) =~= items@);
    Ok(string_of(out.as_slice()))
}

/// A routing rule always runs after detection: its salience lies in `1..=150`,
/// whatever its priority.
pub proof fn law_routing_salience_capped(priority: i64)
    ensures
        1 <= spec_salience(priority, true) <= 150,
{
    let d = (1000 - priority) as i64;
    let c: i64 = if d < 1 {
        1
    } else if d > 150 {
        150
    } else {
        d
    };
    assert(1 <= c <= 150);
    assert(c as i32 == c);
}

/// A lower priority number gives a higher salience (for priorities whose salience
/// fits an `i32` without wrapping).
pub proof fn law_lower_priority_wins(p1: i64, p2: i64)
    requires
        0 <= p1 < p2 <= 1_000_000,
    ensures
        spec_salience(p1, false) > spec_salience(p2, false),
        spec_salience(p1, false) == 1000 - p1,
{
    let d1 = (1000 - p1) as i64;
    let d2 = (1000 - p2) as i64;
    assert(d1 == 1000 - p1);
    assert(d2 == 1000 - p2);
    assert(d1 as i32 == d1);
    assert(d2 as i32 == d2);
}

} // verus!
