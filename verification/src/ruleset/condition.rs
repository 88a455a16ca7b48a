//! Condition trees of the YAML rule schema, evaluated against a request.
use vstd::prelude::*;

use crate::context::{lookup, spec_lookup};
use crate::crs::tx::{assoc_get, lemma_assoc_end, lemma_assoc_hit, lemma_assoc_skip};
use crate::net::{parse_ip, spec_parse_ip, IpValue};
use crate::pattern::{glob_match_str, glob_matches, regex_is_match, regex_matches, CompiledRegex};
use crate::ruleset::types::{ConditionLeaf, ConditionNode, Field, MatchType};
use crate::ruleset::RequestContext;
use crate::text::{
    ascii_lower, chars_eq_ignore_ascii_case, chars_of, eq_ignore_ascii_case, find_char,
    find_char_from, lemma_find_char_from, parse_uint, slice_chars, spec_parse_uint, str_eq_chars,
    str_from_utf8, string_of, to_ascii_lower,
};

verus! {

/// The (key, pattern) pairs of a regex cache.
pub open spec fn regex_entries(v: Seq<(String, CompiledRegex)>) -> Seq<(Seq<char>, Seq<char>)> {
    v.map_values(|e: (String, CompiledRegex)| (e.0@, e.1@))
}

/// Find the compiled regex stored under `key`.
pub fn find_regex<'a>(cache: &'a Vec<(String, CompiledRegex)>, key: &str) -> (r: Option<
    &'a CompiledRegex,
>)
    ensures
        match r {
            Some(re) => assoc_get(regex_entries(cache@), key@) == Some(re@),
            None => assoc_get(regex_entries(cache@), key@) is None,
        },
{
    let ghost s = regex_entries(cache@);
    let k = chars_of(key);
    let mut i: usize = 0;
    assert(s.skip(0) =~= s);
    while i < cache.len()
        invariant
            i <= cache@.len(),
            s == regex_entries(cache@),
            k@ == key@,
            assoc_get(s, key@) == assoc_get(s.skip(i as int), key@),
        decreases cache.len() - i,
    {
        if str_eq_chars(cache[i].0.as_str(), k.as_slice()) {
            proof {
                lemma_assoc_hit(s, key@, i as int);
            }
            return Some(&cache[i].1);
        }
        proof {
            lemma_assoc_skip(s, key@, i as int);
        }
        i += 1;
    }
    proof {
        lemma_assoc_end(s, key@);
    }
    None
}

// ─── CIDR ───────────────────────────────────────────────────────────────────

/// Whether two addresses of one family agree on their first `p` bits
/// (`1 <= p <= width`).
pub open spec fn same_top_bits(a: IpValue, b: IpValue, p: int) -> bool {
    let w: int = if a.v6 {
        128
    } else {
        32
    };
    (a.bits >> ((w - p) as u128)) == (b.bits >> ((w - p) as u128))
}

/// Whether address text `ip` lies in `cidr`: `net/prefix` (a prefix that is not a
/// number counts as 0, one beyond the family's width as the full width; the
/// families must agree), or a single address that must be equal.
pub open spec fn spec_cidr_contains(cidr: Seq<char>, ip: Seq<char>) -> bool {
    match spec_parse_ip(ip) {
        None => false,
        Some(a) => match find_char_from(cidr, '/', 0) {
            Some(k) => {
                let p: int = match spec_parse_uint(cidr.subrange(k + 1, cidr.len() as int), 255) {
                    Some(v) => v,
                    None => 0,
                };
                match spec_parse_ip(cidr.subrange(0, k)) {
                    None => false,
                    Some(n) => n.v6 == a.v6 && (p == 0 || same_top_bits(
                        n,
                        a,
                        if n.v6 {
                            if p > 128 {
                                128
                            } else {
                                p
                            }
                        } else {
                            if p > 32 {
                                32
                            } else {
                                p
                            }
                        },
                    )),
                }
            },
            None => spec_parse_ip(cidr) == Some(a),
        },
    }
}

/// Whether `ip` lies in the CIDR range (or equals the single address) `cidr`.
pub fn cidr_contains(cidr: &str, ip: &str) -> (r: bool)
    ensures
        r == spec_cidr_contains(cidr@, ip@),
{
    let a = match parse_ip(ip) {
        Some(a) => a,
        None => return false,
    };
    let cs = chars_of(cidr);
    proof {
        lemma_find_char_from(cs@, '/', 0);
    }
    match find_char(cs.as_slice(), '/', 0) {
        Some(k) => {
            assert(find_char_from(cs@, '/', 0) == Some(k as int));
            assert(k < cs.len());
            let pre = slice_chars(cs.as_slice(), k + 1, cs.len());
            let p: u64 = match parse_uint(pre.as_slice(), 255) {
                Some(v) => v,
                None => 0,
            };
            let net_cs = slice_chars(cs.as_slice(), 0, k);
            let net_s = string_of(net_cs.as_slice());
            match parse_ip(net_s.as_str()) {
                None => false,
                Some(n) => {
                    if n.v6 != a.v6 {
                        return false;
                    }
                    if p == 0 {
                        return true;
                    }
                    let w: u64 = if n.v6 {
                        128
                    } else {
                        32
                    };
                    let q: u64 = if p > w {
                        w
                    } else {
                        p
                    };
                    let sh: u128 = (w - q) as u128;
                    (n.bits >> sh) == (a.bits >> sh)
                },
            }
        },
        None => match parse_ip(cidr) {
            Some(n) => n.v6 == a.v6 && n.bits == a.bits,
            None => false,
        },
    }
}

// ─── leaves ─────────────────────────────────────────────────────────────────

/// ASCII lowercase of every character.
pub open spec fn ascii_lowercase(s: Seq<char>) -> Seq<char> {
    s.map_values(|c: char| ascii_lower(c))
}

fn ascii_lowercase_of(s: &str) -> (r: String)
    ensures
        r@ == ascii_lowercase(s@),
{
    let cs = chars_of(s);
    let mut out: Vec<char> = Vec::new();
    let mut i: usize = 0;
    while i < cs.len()
        invariant
            i <= cs@.len(),
            cs@ == s@,
            out@ == ascii_lowercase(cs@.take(i as int)),
        decreases cs.len() - i,
    {
        out.push(to_ascii_lower(cs[i]));
        i += 1;
        assert(out@ =~= ascii_lowercase(cs@.take(i as int)));
    }
    assert(cs@.take(cs@.len() as int) =~= cs@);
    string_of(out.as_slice())
}

/// The text of a header (by name, case-insensitively; `""` when absent).
pub open spec fn header_text(ctx: RequestContext, name: Seq<char>) -> Seq<char> {
    match spec_lookup(ctx.headers@, ascii_lowercase(name)) {
        Some(v) => v,
        None => seq![],
    }
}

/// The text of a cookie (`""` when absent).
pub open spec fn cookie_text(ctx: RequestContext, name: Seq<char>) -> Seq<char> {
    match spec_lookup(ctx.cookies@, name) {
        Some(v) => v,
        None => seq![],
    }
}

/// The payload as text (`""` when it is not UTF-8).
pub open spec fn payload_text(ctx: RequestContext) -> Seq<char> {
    if vstd::utf8::valid_utf8(ctx.payload@) {
        vstd::utf8::decode_utf8(ctx.payload@)
    } else {
        seq![]
    }
}

pub open spec fn opt_text(o: Option<String>) -> Seq<char> {
    match o {
        Some(s) => s@,
        None => seq![],
    }
}

/// The request text that a leaf tests.
pub open spec fn leaf_subject(leaf: ConditionLeaf, ctx: RequestContext) -> Seq<char> {
    match leaf.field {
        Field::Ip => ctx.ip@,
        Field::Path => ctx.path@,
        Field::Method => ctx.method@,
        Field::SessionId => ctx.session_id@,
        Field::DeviceFp => ctx.device_fp@,
        Field::ContentType => opt_text(ctx.content_type),
        Field::Header => header_text(ctx, opt_text(leaf.header_name)),
        Field::Cookie => cookie_text(ctx, opt_text(leaf.cookie_name)),
        Field::Payload => payload_text(ctx),
    }
}

/// How a leaf's match type judges `subject`.
pub open spec fn spec_match_value(
    subject: Seq<char>,
    leaf: ConditionLeaf,
    cache: Seq<(String, CompiledRegex)>,
) -> bool {
    match leaf.match_type {
        MatchType::Exact => if leaf.case_sensitive {
            subject == leaf.value@
        } else {
            eq_ignore_ascii_case(subject, leaf.value@)
        },
        MatchType::Wildcard => glob_matches(leaf.value@, !leaf.case_sensitive, subject),
        MatchType::Regex => match leaf.compiled_regex_key {
            Some(k) => match assoc_get(regex_entries(cache), k@) {
                Some(p) => regex_matches(p, subject),
                None => false,
            },
            None => false,
        },
        MatchType::Cidr => spec_cidr_contains(leaf.value@, subject),
        MatchType::Presence => subject.len() != 0,
        MatchType::Absence => subject.len() == 0,
    }
}

/// A leaf's verdict before negation: presence and absence of a payload look at
/// its bytes; everything else goes through the match type.
pub open spec fn leaf_raw(leaf: ConditionLeaf, ctx: RequestContext, cache: Seq<(String, CompiledRegex)>) -> bool {
    if leaf.field == Field::Payload && leaf.match_type == MatchType::Presence {
        ctx.payload@.len() != 0
    } else if leaf.field == Field::Payload && leaf.match_type == MatchType::Absence {
        ctx.payload@.len() == 0
    } else {
        spec_match_value(leaf_subject(leaf, ctx), leaf, cache)
    }
}

/// A leaf's verdict.
pub open spec fn spec_eval_leaf(leaf: ConditionLeaf, ctx: RequestContext, cache: Seq<(String, CompiledRegex)>) -> bool {
    if leaf.negate {
        !leaf_raw(leaf, ctx, cache)
    } else {
        leaf_raw(leaf, ctx, cache)
    }
}

/// An `Exact` leaf compares whole texts: a case-sensitive leaf holds exactly
/// when the subject is the value, and a case-insensitive one exactly when they
/// have the same length and agree at every position once ASCII letters are
/// lowercased (so `/Login` matches `/login`); a subject equal to the value
/// matches either way.
pub proof fn law_exact_match_case(subject: Seq<char>, leaf: ConditionLeaf, cache: Seq<(String, CompiledRegex)>)
    requires
        leaf.match_type == MatchType::Exact,
    ensures
        leaf.case_sensitive ==> (spec_match_value(subject, leaf, cache) <==> subject == leaf.value@),
        !leaf.case_sensitive ==> (spec_match_value(subject, leaf, cache) <==> (subject.len()
            == leaf.value@.len() && forall|i: int|
            0 <= i < subject.len() ==> ascii_lower(#[trigger] subject[i]) == ascii_lower(
                leaf.value@[i],
            ))),
        subject == leaf.value@ ==> spec_match_value(subject, leaf, cache),
{
}

fn match_value(subject: &str, leaf: &ConditionLeaf, cache: &Vec<(String, CompiledRegex)>) -> (r: bool)
    ensures
        r == spec_match_value(subject@, *leaf, cache@),
{
    let sc = chars_of(subject);
    match leaf.match_type {
        MatchType::Exact => {
            let vc = chars_of(leaf.value.as_str());
            if leaf.case_sensitive {
                crate::text::chars_eq(sc.as_slice(), vc.as_slice())
            } else {
                chars_eq_ignore_ascii_case(sc.as_slice(), vc.as_slice())
            }
        },
        MatchType::Wildcard => glob_match_str(leaf.value.as_str(), !leaf.case_sensitive, subject),
        MatchType::Regex => match &leaf.compiled_regex_key {
            Some(k) => match find_regex(cache, k.as_str()) {
                Some(re) => regex_is_match(re, subject),
                None => false,
            },
            None => false,
        },
        MatchType::Cidr => cidr_contains(leaf.value.as_str(), subject),
        MatchType::Presence => sc.len() != 0,
        MatchType::Absence => sc.len() == 0,
    }
}

fn opt_string(o: &Option<String>) -> (r: String)
    ensures
        r@ == opt_text(*o),
{
    match o {
        Some(s) => s.clone(),
        None => String::new(),
    }
}

/// Evaluate one leaf against the request.
pub fn eval_leaf(leaf: &ConditionLeaf, ctx: &RequestContext, cache: &Vec<(String, CompiledRegex)>) -> (r: bool)
    ensures
        r == spec_eval_leaf(*leaf, *ctx, cache@),
{
    let raw = if leaf.field == Field::Payload && leaf.match_type == MatchType::Presence {
        ctx.payload.len() != 0
    } else if leaf.field == Field::Payload && leaf.match_type == MatchType::Absence {
        ctx.payload.len() == 0
    } else {
        let subject: String = match leaf.field {
            Field::Ip => ctx.ip.clone(),
            Field::Path => ctx.path.clone(),
            Field::Method => ctx.method.clone(),
            Field::SessionId => ctx.session_id.clone(),
            Field::DeviceFp => ctx.device_fp.clone(),
            Field::ContentType => opt_string(&ctx.content_type),
            Field::Header => {
                let n = opt_string(&leaf.header_name);
                let key = ascii_lowercase_of(n.as_str());
                match lookup(&ctx.headers, key.as_str()) {
                    Some(v) => v.clone(),
                    None => String::new(),
                }
            },
            Field::Cookie => {
                let n = opt_string(&leaf.cookie_name);
                match lookup(&ctx.cookies, n.as_str()) {
                    Some(v) => v.clone(),
                    None => String::new(),
                }
            },
            Field::Payload => match str_from_utf8(ctx.payload.as_slice()) {
                Some(s) => s,
                None => String::new(),
            },
        };
        match_value(subject.as_str(), leaf, cache)
    };
    if leaf.negate {
        !raw
    } else {
        raw
    }
}

// ─── trees ──────────────────────────────────────────────────────────────────

/// What a condition tree evaluates to.
pub open spec fn spec_eval_node(node: ConditionNode, ctx: RequestContext, cache: Seq<(String, CompiledRegex)>) -> bool
    decreases node,
{
    match node {
        ConditionNode::And(cs) => {
            proof {
                assert(decreases_to!(cs => cs@));
            }
            all_nodes(cs@, ctx, cache)
        },
        ConditionNode::Or(cs) => {
            proof {
                assert(decreases_to!(cs => cs@));
            }
            any_node(cs@, ctx, cache)
        },
        ConditionNode::Leaf(leaf) => spec_eval_leaf(leaf, ctx, cache),
    }
}

pub open spec fn all_nodes(cs: Seq<ConditionNode>, ctx: RequestContext, cache: Seq<(String, CompiledRegex)>) -> bool
    decreases cs,
{
    if cs.len() == 0 {
        true
    } else {
        proof {
            assert(cs.drop_first() =~= cs.subrange(1, cs.len() as int));
        }
        spec_eval_node(cs[0], ctx, cache) && all_nodes(cs.drop_first(), ctx, cache)
    }
}

pub open spec fn any_node(cs: Seq<ConditionNode>, ctx: RequestContext, cache: Seq<(String, CompiledRegex)>) -> bool
    decreases cs,
{
    if cs.len() == 0 {
        false
    } else {
        proof {
            assert(cs.drop_first() =~= cs.subrange(1, cs.len() as int));
        }
        spec_eval_node(cs[0], ctx, cache) || any_node(cs.drop_first(), ctx, cache)
    }
}

/// Evaluate a condition tree against the request.
#[verifier::loop_isolation(false)]
pub fn eval_node(node: &ConditionNode, ctx: &RequestContext, cache: &Vec<(String, CompiledRegex)>) -> (r: bool)
    ensures
        r == spec_eval_node(*node, *ctx, cache@),
    decreases node,
{
    match node {
        ConditionNode::And(cs) => {
            let mut i: usize = 0;
            let mut all = true;
            assert(cs@.skip(0) =~= cs@);
            while all && i < cs.len()
                invariant
                    i <= cs@.len(),
                    all ==> all_nodes(cs@, *ctx, cache@) == all_nodes(cs@.skip(i as int), *ctx, cache@),
                    !all ==> !all_nodes(cs@, *ctx, cache@),
                decreases cs.len() - i,
            {
                proof {
                    assert(decreases_to!(*node => *cs));
                    assert(decreases_to!(*cs => cs@));
                    assert(decreases_to!(cs@ => cs@[i as int]));
                    assert(cs@.skip(i as int).drop_first() =~= cs@.skip(i + 1));
                }
                if !eval_node(&cs[i], ctx, cache) {
                    all = false;
                }
                i += 1;
            }
            proof {
                if all {
                    assert(cs@.skip(i as int).len() == 0);
                }
            }
            all
        },
        ConditionNode::Or(cs) => {
            let mut i: usize = 0;
            let mut any = false;
            assert(cs@.skip(0) =~= cs@);
            while !any && i < cs.len()
                invariant
                    i <= cs@.len(),
                    !any ==> any_node(cs@, *ctx, cache@) == any_node(cs@.skip(i as int), *ctx, cache@),
                    any ==> any_node(cs@, *ctx, cache@),
                decreases cs.len() - i,
            {
                proof {
                    assert(decreases_to!(*node => *cs));
                    assert(decreases_to!(*cs => cs@));
                    assert(decreases_to!(cs@ => cs@[i as int]));
                    assert(cs@.skip(i as int).drop_first() =~= cs@.skip(i + 1));
                }
                if eval_node(&cs[i], ctx, cache) {
                    any = true;
                }
                i += 1;
            }
            proof {
                if !any {
                    assert(cs@.skip(i as int).len() == 0);
                }
            }
            any
        },
        ConditionNode::Leaf(leaf) => eval_leaf(leaf, ctx, cache),
    }
}

/// A condition tree bound to the regex cache of its rule set.
pub struct ConditionEvaluator<'a> {
    pub condition: &'a ConditionNode,
    pub compiled_regexes: &'a Vec<(String, CompiledRegex)>,
}

impl<'a> ConditionEvaluator<'a> {
    pub fn new(condition: &'a ConditionNode, compiled_regexes: &'a Vec<(String, CompiledRegex)>) -> (r: Self)
        ensures
            r.condition == condition,
            r.compiled_regexes == compiled_regexes,
    {
        ConditionEvaluator { condition, compiled_regexes }
    }

    pub fn evaluate(&self, ctx: &RequestContext) -> (r: bool)
        ensures
            r == spec_eval_node(*self.condition, *ctx, self.compiled_regexes@),
    {
        eval_node(self.condition, ctx, self.compiled_regexes)
    }
}

} // verus!
