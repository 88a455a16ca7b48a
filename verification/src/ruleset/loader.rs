//! Validation and compilation of raw rules into a rule set.
use vstd::prelude::*;

use crate::pattern::{compile_regex, regex_compiles, CompiledRegex};
use crate::ruleset::types::{
    Action, ConditionLeaf, ConditionNode, MatchType, Rule, RuleRaw, RuleSet,
};
use crate::ruleset::RuleError;
use crate::text::{
    chars_of, i64_to_decimal, int_to_decimal, nat_digits, push_chars, push_str,
    starts_with_chars, str_eq_chars, string_of, usize_to_decimal,
};

verus! {

broadcast use vstd::seq_lib::group_to_multiset_ensures;

// ─── patterns of regex leaves ───────────────────────────────────────────────

/// Cache key of the `n`-th distinct regex pattern.
pub open spec fn regex_key(n: nat) -> Seq<char> {
    "regex_"@ + nat_digits(n)
}

/// The pattern a regex leaf is compiled from: `(?i)` is prepended to a
/// case-insensitive pattern that does not already start with it.
pub open spec fn norm_pattern(leaf: ConditionLeaf) -> Seq<char> {
    if !leaf.case_sensitive && !"(?i)"@.is_prefix_of(leaf.value@) {
        "(?i)"@ + leaf.value@
    } else {
        leaf.value@
    }
}

/// The patterns of the regex leaves of a tree, left to right.
pub open spec fn node_patterns(n: ConditionNode) -> Seq<Seq<char>>
    decreases n,
{
    match n {
        ConditionNode::And(cs) => {
            proof {
                assert(decreases_to!(cs => cs@));
            }
            nodes_patterns(cs@)
        },
        ConditionNode::Or(cs) => {
            proof {
                assert(decreases_to!(cs => cs@));
            }
            nodes_patterns(cs@)
        },
        ConditionNode::Leaf(l) => if l.match_type == MatchType::Regex {
            seq![norm_pattern(l)]
        } else {
            seq![]
        },
    }
}

pub open spec fn nodes_patterns(cs: Seq<ConditionNode>) -> Seq<Seq<char>>
    decreases cs,
{
    if cs.len() == 0 {
        seq![]
    } else {
        proof {
            assert(cs.drop_first() =~= cs.subrange(1, cs.len() as int));
        }
        node_patterns(cs[0]) + nodes_patterns(cs.drop_first())
    }
}

/// The patterns of the regex leaves of all rules, in rule order.
pub open spec fn rules_patterns(rs: Seq<RuleRaw>) -> Seq<Seq<char>>
    decreases rs.len(),
{
    if rs.len() == 0 {
        seq![]
    } else {
        node_patterns(rs[0].condition) + rules_patterns(rs.drop_first())
    }
}

/// The first pattern that does not compile.
pub open spec fn first_bad(ps: Seq<Seq<char>>) -> Option<Seq<char>>
    decreases ps.len(),
{
    if ps.len() == 0 {
        None
    } else if !regex_compiles(ps[0]) {
        Some(ps[0])
    } else {
        first_bad(ps.drop_first())
    }
}

/// `known` extended by the patterns of `ps` it does not hold yet, in order.
pub open spec fn with_patterns(known: Seq<Seq<char>>, ps: Seq<Seq<char>>) -> Seq<Seq<char>>
    decreases ps.len(),
{
    if ps.len() == 0 {
        known
    } else {
        with_patterns(
            if known.contains(ps[0]) {
                known
            } else {
                known.push(ps[0])
            },
            ps.drop_first(),
        )
    }
}

proof fn lemma_with_concat(k: Seq<Seq<char>>, a: Seq<Seq<char>>, b: Seq<Seq<char>>)
    ensures
        with_patterns(k, a + b) == with_patterns(with_patterns(k, a), b),
    decreases a.len(),
{
    if a.len() == 0 {
        assert(a + b =~= b);
    } else {
        assert((a + b).drop_first() =~= a.drop_first() + b);
        assert((a + b)[0] == a[0]);
        let k2 = if k.contains(a[0]) {
            k
        } else {
            k.push(a[0])
        };
        lemma_with_concat(k2, a.drop_first(), b);
    }
}

proof fn lemma_first_bad_concat(a: Seq<Seq<char>>, b: Seq<Seq<char>>)
    ensures
        first_bad(a + b) == (match first_bad(a) {
            Some(p) => Some(p),
            None => first_bad(b),
        }),
    decreases a.len(),
{
    if a.len() == 0 {
        assert(a + b =~= b);
    } else {
        assert((a + b).drop_first() =~= a.drop_first() + b);
        assert((a + b)[0] == a[0]);
        lemma_first_bad_concat(a.drop_first(), b);
    }
}

proof fn lemma_with_contains(k: Seq<Seq<char>>, ps: Seq<Seq<char>>, p: Seq<char>)
    requires
        k.contains(p) || ps.contains(p),
    ensures
        with_patterns(k, ps).contains(p),
    decreases ps.len(),
{
    if ps.len() > 0 {
        let k2 = if k.contains(ps[0]) {
            k
        } else {
            k.push(ps[0])
        };
        if k.contains(p) {
            let j = choose|j: int| 0 <= j < k.len() && k[j] == p;
            assert(k2[j] == p);
        } else if ps[0] == p {
            if !k.contains(ps[0]) {
                assert(k2[k.len() as int] == p);
            }
        } else {
            let j = choose|j: int| 0 <= j < ps.len() && ps[j] == p;
            assert(ps.drop_first()[j - 1] == p);
        }
        lemma_with_contains(k2, ps.drop_first(), p);
    }
}

proof fn lemma_with_prefix(k: Seq<Seq<char>>, ps: Seq<Seq<char>>)
    ensures
        k.is_prefix_of(with_patterns(k, ps)),
    decreases ps.len(),
{
    if ps.len() > 0 {
        let k2 = if k.contains(ps[0]) {
            k
        } else {
            k.push(ps[0])
        };
        lemma_with_prefix(k2, ps.drop_first());
    }
}

/// The cache state: distinct patterns, each compiled under its key.
pub open spec fn cache_wf(pats: Seq<String>, regs: Seq<(String, CompiledRegex)>) -> bool {
    &&& regs.len() == pats.len()
    &&& forall|i: int| 0 <= i < regs.len() ==> (#[trigger] regs[i]).0@ == regex_key(i as nat)
    &&& forall|i: int| 0 <= i < regs.len() ==> (#[trigger] regs[i]).1@ == pats[i]@
    &&& forall|i: int| 0 <= i < pats.len() ==> regex_compiles(#[trigger] pats[i]@)
}

pub open spec fn pats_view(v: Seq<String>) -> Seq<Seq<char>> {
    v.map_values(|s: String| s@)
}

/// The first position of `x` in `s` at or after `i` (`-1` when there is none).
pub open spec fn first_index(s: Seq<Seq<char>>, x: Seq<char>, i: int) -> int
    decreases s.len() - i,
{
    if i < 0 || i >= s.len() {
        -1
    } else if s[i] == x {
        i
    } else {
        first_index(s, x, i + 1)
    }
}

fn normalized(leaf: &ConditionLeaf) -> (r: String)
    ensures
        r@ == norm_pattern(*leaf),
{
    let vc = chars_of(leaf.value.as_str());
    let pre = chars_of("(?i)");
    if !leaf.case_sensitive && !starts_with_chars(vc.as_slice(), pre.as_slice()) {
        let mut out = pre;
        push_chars(&mut out, vc.as_slice());
        string_of(out.as_slice())
    } else {
        leaf.value.clone()
    }
}

fn find_pattern(pats: &Vec<String>, p: &String) -> (r: Option<usize>)
    ensures
        match r {
            Some(i) => i < pats@.len() && pats@[i as int]@ == p@ && first_index(
                pats_view(pats@),
                p@,
                0,
            ) == i,
            None => !pats_view(pats@).contains(p@),
        },
{
    let pc = chars_of(p.as_str());
    let mut i: usize = 0;
    while i < pats.len()
        invariant
            i <= pats@.len(),
            pc@ == p@,
            forall|j: int| 0 <= j < i ==> #[trigger] pats@[j]@ != p@,
            first_index(pats_view(pats@), p@, 0) == first_index(pats_view(pats@), p@, i as int),
        decreases pats.len() - i,
    {
        if str_eq_chars(pats[i].as_str(), pc.as_slice()) {
            return Some(i);
        }
        i += 1;
    }
    proof {
        if pats_view(pats@).contains(p@) {
            let j = choose|j: int| 0 <= j < pats_view(pats@).len() && pats_view(pats@)[j] == p@;
            assert(pats@[j]@ == p@);
        }
    }
    None
}

fn key_string(n: usize) -> (r: String)
    ensures
        r@ == regex_key(n as nat),
{
    let mut out = chars_of("regex_");
    let d = usize_to_decimal(n);
    push_chars(&mut out, d.as_slice());
    string_of(out.as_slice())
}

/// Register the patterns of the regex leaves of `node` in the cache, compiling
/// each new one; the first pattern that does not compile is returned as error.
fn collect_patterns(
    node: &ConditionNode,
    pats: &mut Vec<String>,
    regs: &mut Vec<(String, CompiledRegex)>,
) -> (r: Result<(), String>)
    requires
        cache_wf(old(pats)@, old(regs)@),
    ensures
        cache_wf(final(pats)@, final(regs)@),
        match r {
            Ok(()) => first_bad(node_patterns(*node)) is None && pats_view(final(pats)@)
                == with_patterns(pats_view(old(pats)@), node_patterns(*node)),
            Err(p) => first_bad(node_patterns(*node)) == Some(p@),
        },
    decreases node, 0nat,
{
    match node {
        ConditionNode::Leaf(leaf) => {
            if leaf.match_type != MatchType::Regex {
                assert(node_patterns(*node) =~= Seq::<Seq<char>>::empty());
                assert(first_bad(node_patterns(*node)) is None);
                assert(with_patterns(pats_view(pats@), node_patterns(*node)) == pats_view(pats@));
                return Ok(());
            }
            let p = normalized(leaf);
            let ghost ps = seq![p@];
            assert(ps.drop_first() =~= Seq::<Seq<char>>::empty());
            assert(node_patterns(*node) == ps);
            let ghost pv = pats_view(pats@);
            assert(first_bad(ps.drop_first()) is None);
            match find_pattern(pats, &p) {
                Some(i) => {
                    assert(pv[i as int] == p@);
                    assert(pv.contains(p@));
                    assert(regex_compiles(pats@[i as int]@));
                    assert(with_patterns(pv, ps) == with_patterns(pv, ps.drop_first()));
                    assert(with_patterns(pv, ps.drop_first()) == pv);
                    assert(first_bad(ps) is None);
                    Ok(())
                },
                None => {
                    match compile_regex(p.as_str()) {
                        Some(re) => {
                            let key = key_string(pats.len());
                            pats.push(p);
                            regs.push((key, re));
                            assert(pats_view(pats@) =~= pv.push(ps[0]));
                            assert(with_patterns(pv, ps) == with_patterns(pv.push(ps[0]), ps.drop_first()));
                            assert(with_patterns(pv.push(ps[0]), ps.drop_first()) == pv.push(ps[0]));
                            assert(first_bad(ps) is None);
                            Ok(())
                        },
                        None => Err(p),
                    }
                },
            }
        },
        ConditionNode::And(cs) => collect_children(cs, pats, regs),
        ConditionNode::Or(cs) => collect_children(cs, pats, regs),
    }
}

fn collect_children(
    cs: &Vec<ConditionNode>,
    pats: &mut Vec<String>,
    regs: &mut Vec<(String, CompiledRegex)>,
) -> (r: Result<(), String>)
    requires
        cache_wf(old(pats)@, old(regs)@),
    ensures
        cache_wf(final(pats)@, final(regs)@),
        match r {
            Ok(()) => first_bad(nodes_patterns(cs@)) is None && pats_view(final(pats)@)
                == with_patterns(pats_view(old(pats)@), nodes_patterns(cs@)),
            Err(p) => first_bad(nodes_patterns(cs@)) == Some(p@),
        },
    decreases cs, 1nat,
{
    let ghost p0 = pats_view(pats@);
    let mut i: usize = 0;
    assert(cs@.skip(0) =~= cs@);
    while i < cs.len()
        invariant
            i <= cs@.len(),
            cache_wf(pats@, regs@),
            first_bad(nodes_patterns(cs@)) == first_bad(nodes_patterns(cs@.skip(i as int))),
            with_patterns(p0, nodes_patterns(cs@)) == with_patterns(
                pats_view(pats@),
                nodes_patterns(cs@.skip(i as int)),
            ),
        decreases cs.len() - i,
    {
        proof {
            assert(decreases_to!(*cs => cs@));
            assert(decreases_to!(cs@ => cs@[i as int]));
            assert(cs@.skip(i as int).drop_first() =~= cs@.skip(i + 1));
            lemma_with_concat(
                pats_view(pats@),
                node_patterns(cs@[i as int]),
                nodes_patterns(cs@.skip(i + 1)),
            );
            lemma_first_bad_concat(node_patterns(cs@[i as int]), nodes_patterns(cs@.skip(i + 1)));
        }
        match collect_patterns(&cs[i], pats, regs) {
            Ok(()) => {},
            Err(p) => {
                return Err(p);
            },
        }
        i += 1;
    }
    assert(cs@.skip(i as int) =~= Seq::<ConditionNode>::empty());
    Ok(())
}

// ─── keys of regex leaves ───────────────────────────────────────────────────

/// `x` is leaf `y` with its cache key set: the key of its pattern for a regex
/// leaf, the old key otherwise.
pub open spec fn leaf_keyed(x: ConditionLeaf, y: ConditionLeaf, pats: Seq<Seq<char>>) -> bool {
    &&& x.field == y.field
    &&& x.match_type == y.match_type
    &&& x.value == y.value
    &&& x.header_name == y.header_name
    &&& x.cookie_name == y.cookie_name
    &&& x.case_sensitive == y.case_sensitive
    &&& x.negate == y.negate
    &&& if y.match_type == MatchType::Regex {
        x.compiled_regex_key matches Some(k) && k@ == regex_key(
            first_index(pats, norm_pattern(y), 0) as nat,
        )
    } else {
        x.compiled_regex_key == y.compiled_regex_key
    }
}

/// `out` is the tree `inp` with the cache keys of its leaves set.
pub open spec fn keyed_rel(out: ConditionNode, inp: ConditionNode, pats: Seq<Seq<char>>) -> bool
    decreases inp,
{
    match inp {
        ConditionNode::And(b) => {
            proof {
                assert(decreases_to!(b => b@));
            }
            out matches ConditionNode::And(a) && keyed_all(a@, b@, pats)
        },
        ConditionNode::Or(b) => {
            proof {
                assert(decreases_to!(b => b@));
            }
            out matches ConditionNode::Or(a) && keyed_all(a@, b@, pats)
        },
        ConditionNode::Leaf(y) => out matches ConditionNode::Leaf(x) && leaf_keyed(x, y, pats),
    }
}

pub open spec fn keyed_all(a: Seq<ConditionNode>, b: Seq<ConditionNode>, pats: Seq<Seq<char>>) -> bool
    decreases b,
{
    if b.len() == 0 {
        a.len() == 0
    } else {
        proof {
            assert(b.drop_first() =~= b.subrange(1, b.len() as int));
        }
        a.len() == b.len() && keyed_rel(a[0], b[0], pats) && keyed_all(
            a.drop_first(),
            b.drop_first(),
            pats,
        )
    }
}

proof fn lemma_keyed_all_push(
    a: Seq<ConditionNode>,
    b: Seq<ConditionNode>,
    x: ConditionNode,
    y: ConditionNode,
    pats: Seq<Seq<char>>,
)
    requires
        keyed_all(a, b, pats),
        keyed_rel(x, y, pats),
    ensures
        keyed_all(a.push(x), b.push(y), pats),
    decreases b.len(),
{
    reveal_with_fuel(keyed_all, 2);
    if b.len() == 0 {
        assert(a.push(x) =~= seq![x]);
        assert(b.push(y) =~= seq![y]);
        assert(seq![x].drop_first() =~= Seq::<ConditionNode>::empty());
        assert(seq![y].drop_first() =~= Seq::<ConditionNode>::empty());
    } else {
        assert(a.push(x).drop_first() =~= a.drop_first().push(x));
        assert(b.push(y).drop_first() =~= b.drop_first().push(y));
        lemma_keyed_all_push(a.drop_first(), b.drop_first(), x, y, pats);
    }
}

proof fn lemma_child_patterns(cs: Seq<ConditionNode>, i: int, p: Seq<char>)
    requires
        0 <= i < cs.len(),
        node_patterns(cs[i]).contains(p),
    ensures
        nodes_patterns(cs).contains(p),
    decreases cs.len(),
{
    let rest = nodes_patterns(cs.drop_first());
    let head = node_patterns(cs[0]);
    if i == 0 {
        let j = choose|j: int| 0 <= j < head.len() && head[j] == p;
        assert((head + rest)[j] == p);
    } else {
        assert(cs.drop_first()[i - 1] == cs[i]);
        lemma_child_patterns(cs.drop_first(), i - 1, p);
        let j = choose|j: int| 0 <= j < rest.len() && rest[j] == p;
        assert((head + rest)[head.len() + j] == p);
    }
}

/// Set the cache key of every regex leaf of `node` (each pattern must be cached).
fn populate_keys(node: ConditionNode, pats: &Vec<String>) -> (r: ConditionNode)
    requires
        forall|p: Seq<char>| #[trigger]
            node_patterns(node).contains(p) ==> pats_view(pats@).contains(p),
    ensures
        keyed_rel(r, node, pats_view(pats@)),
    decreases node, 0nat,
{
    let ghost n0 = node;
    match node {
        ConditionNode::Leaf(mut leaf) => {
            let ghost y = leaf;
            if leaf.match_type == MatchType::Regex {
                let p = normalized(&leaf);
                assert(node_patterns(n0) == seq![p@]);
                assert(seq![p@][0] == p@);
                assert(node_patterns(n0).contains(p@));
                match find_pattern(pats, &p) {
                    Some(i) => {
                        leaf.compiled_regex_key = Some(key_string(i));
                    },
                    None => {
                        assert(false);
                    },
                }
            }
            ConditionNode::Leaf(leaf)
        },
        ConditionNode::And(cs) => {
            let ghost c0 = cs;
            proof {
                assert forall|p: Seq<char>| #[trigger]
                    nodes_patterns(c0@).contains(p) implies pats_view(pats@).contains(p) by {
                    assert(node_patterns(n0) == nodes_patterns(c0@));
                }
            }
            ConditionNode::And(populate_children(cs, pats))
        },
        ConditionNode::Or(cs) => {
            let ghost c0 = cs;
            proof {
                assert forall|p: Seq<char>| #[trigger]
                    nodes_patterns(c0@).contains(p) implies pats_view(pats@).contains(p) by {
                    assert(node_patterns(n0) == nodes_patterns(c0@));
                }
            }
            ConditionNode::Or(populate_children(cs, pats))
        },
    }
}

#[verifier::loop_isolation(false)]
fn populate_children(cs: Vec<ConditionNode>, pats: &Vec<String>) -> (r: Vec<ConditionNode>)
    requires
        forall|p: Seq<char>| #[trigger]
            nodes_patterns(cs@).contains(p) ==> pats_view(pats@).contains(p),
    ensures
        keyed_all(r@, cs@, pats_view(pats@)),
    decreases cs, 1nat,
{
    let ghost orig = cs;
    let mut rest = cs;
    let n = rest.len();
    let mut out: Vec<ConditionNode> = Vec::new();
    let mut i: usize = 0;
    assert(orig@.take(0) =~= Seq::<ConditionNode>::empty());
    assert(orig@.skip(0) =~= orig@);
    while rest.len() > 0
        invariant
            i <= orig@.len(),
            n == orig@.len(),
            rest@ == orig@.skip(i as int),
            keyed_all(out@, orig@.take(i as int), pats_view(pats@)),
            forall|p: Seq<char>| #[trigger]
                nodes_patterns(orig@).contains(p) ==> pats_view(pats@).contains(p),
        decreases rest.len(),
    {
        assert(i < orig@.len());
        let x = rest.remove(0);
        assert(x == orig@[i as int]);
        proof {
            assert(decreases_to!(orig => orig@));
            assert(decreases_to!(orig@ => orig@[i as int]));
            assert(decreases_to!(orig => orig@[i as int]));
            assert forall|p: Seq<char>| #[trigger]
                node_patterns(x).contains(p) implies pats_view(pats@).contains(p) by {
                lemma_child_patterns(orig@, i as int, p);
            }
        }
        let ghost xi = x;
        let y = populate_keys(x, pats);
        proof {
            lemma_keyed_all_push(out@, orig@.take(i as int), y, xi, pats_view(pats@));
            assert(orig@.take(i as int).push(xi) =~= orig@.take(i + 1));
        }
        out.push(y);
        i += 1;
        assert(rest@ =~= orig@.skip(i as int));
    }
    assert(orig@.take(i as int) =~= orig@);
    out
}

// ─── validation ─────────────────────────────────────────────────────────────

/// The first rule from `i` on with a regex leaf whose pattern does not compile.
pub open spec fn first_regex_failure(rs: Seq<RuleRaw>, i: int) -> Option<int>
    decreases rs.len() - i,
{
    if i < 0 || i >= rs.len() {
        None
    } else if first_bad(node_patterns(rs[i].condition)) is Some {
        Some(i)
    } else {
        first_regex_failure(rs, i + 1)
    }
}

/// Whether an earlier rule has the id of rule `i`.
pub open spec fn id_seen_before(rs: Seq<RuleRaw>, i: int) -> bool {
    exists|j: int| 0 <= j < i && #[trigger] rs[j].id@ == rs[i].id@
}

/// Whether a risk delta lies outside `[-100, 100]`.
pub open spec fn delta_out_of_range(d: i8) -> bool {
    d < -100 || d > 100
}

pub open spec fn rule_invalid(rs: Seq<RuleRaw>, i: int) -> bool {
    id_seen_before(rs, i) || delta_out_of_range(rs[i].risk_score_delta) || rs[i].priority == 0
}

/// The first rule from `i` on that repeats an id, has a risk delta out of range,
/// or has priority 0.
pub open spec fn first_invalid(rs: Seq<RuleRaw>, i: int) -> Option<int>
    decreases rs.len() - i,
{
    if i < 0 || i >= rs.len() {
        None
    } else if rule_invalid(rs, i) {
        Some(i)
    } else {
        first_invalid(rs, i + 1)
    }
}

/// The message of a risk delta out of range.
pub open spec fn delta_reason(d: i8) -> Seq<char> {
    "risk_score_delta "@ + int_to_decimal(d as int) + " out of range [-100, 100]"@
}

/// Whether the rules compile: every regex pattern compiles and every rule is valid.
pub open spec fn accepted(rs: Seq<RuleRaw>) -> bool {
    first_regex_failure(rs, 0) is None && first_invalid(rs, 0) is None
}

/// The error owed for rules that are not accepted: the first regex that does not
/// compile (with its rule), else the first invalid rule's first fault (a repeated
/// id, then the risk delta, then the priority).
pub open spec fn error_owed(e: RuleError, rs: Seq<RuleRaw>) -> bool {
    match first_regex_failure(rs, 0) {
        Some(k) => e matches RuleError::RegexError { id, pattern } && id@ == rs[k].id@ && pattern@
            == first_bad(node_patterns(rs[k].condition))->Some_0,
        None => match first_invalid(rs, 0) {
            Some(k) => if id_seen_before(rs, k) {
                e matches RuleError::DuplicateId(id) && id@ == rs[k].id@
            } else if delta_out_of_range(rs[k].risk_score_delta) {
                e matches RuleError::ValidationError { id, reason } && id@ == rs[k].id@ && reason@
                    == delta_reason(rs[k].risk_score_delta)
            } else {
                e matches RuleError::ValidationError { id, reason } && id@ == rs[k].id@ && reason@
                    == "priority must be >= 1"@
            },
            None => false,
        },
    }
}

/// `b` is raw rule `r` compiled: the same fields, the source defaulting to
/// `system`, and the cache keys of its regex leaves set.
pub open spec fn compiled_from(b: Rule, r: RuleRaw, pats: Seq<Seq<char>>) -> bool {
    &&& b.id == r.id
    &&& b.source@ == (match r.source {
        Some(s) => s@,
        None => "system"@,
    })
    &&& b.description == r.description
    &&& b.enabled == r.enabled
    &&& b.priority == r.priority
    &&& keyed_rel(b.condition, r.condition, pats)
    &&& b.action == r.action
    &&& b.risk_score_delta == r.risk_score_delta
    &&& b.response == r.response
    &&& b.rate_limit == r.rate_limit
    &&& b.challenge == r.challenge
    &&& b.tier == r.tier
}

/// Rules in ascending priority.
pub open spec fn by_priority(rs: Seq<Rule>) -> bool {
    forall|i: int, j: int| 0 <= i < j < rs.len() ==> rs[i].priority <= rs[j].priority
}

/// The distinct regex patterns of the rules, in order of first use.
pub open spec fn all_patterns(rs: Seq<RuleRaw>) -> Seq<Seq<char>> {
    with_patterns(seq![], rules_patterns(rs))
}

proof fn lemma_rule_patterns(rs: Seq<RuleRaw>, k: int, p: Seq<char>)
    requires
        0 <= k < rs.len(),
        node_patterns(rs[k].condition).contains(p),
    ensures
        rules_patterns(rs).contains(p),
    decreases rs.len(),
{
    let head = node_patterns(rs[0].condition);
    let rest = rules_patterns(rs.drop_first());
    if k == 0 {
        let j = choose|j: int| 0 <= j < head.len() && head[j] == p;
        assert((head + rest)[j] == p);
    } else {
        assert(rs.drop_first()[k - 1] == rs[k]);
        lemma_rule_patterns(rs.drop_first(), k - 1, p);
        let j = choose|j: int| 0 <= j < rest.len() && rest[j] == p;
        assert((head + rest)[head.len() + j] == p);
    }
}

fn delta_message(d: i8) -> (r: String)
    ensures
        r@ == delta_reason(d),
{
    let mut out = chars_of("risk_score_delta ");
    let n = i64_to_decimal(d as i64);
    push_chars(&mut out, n.as_slice());
    push_str(&mut out, " out of range [-100, 100]");
    string_of(out.as_slice())
}

fn seen_before(raw: &Vec<RuleRaw>, i: usize) -> (r: bool)
    requires
        i < raw@.len(),
    ensures
        r == id_seen_before(raw@, i as int),
{
    let idc = chars_of(raw[i].id.as_str());
    let mut j: usize = 0;
    while j < i
        invariant
            j <= i < raw@.len(),
            idc@ == raw@[i as int].id@,
            forall|k: int| 0 <= k < j ==> #[trigger] raw@[k].id@ != raw@[i as int].id@,
        decreases i - j,
    {
        if str_eq_chars(raw[j].id.as_str(), idc.as_slice()) {
            return true;
        }
        j += 1;
    }
    false
}

// ─── sorting ────────────────────────────────────────────────────────────────

/// `r` is `v` reordered (`r[i]` is `v[idx[i]]`, each position of `v` used
/// once) with rules of equal priority kept in their order in `v`.
pub open spec fn stable_by_priority(r: Seq<Rule>, v: Seq<Rule>, idx: Seq<int>) -> bool {
    &&& idx.len() == r.len() && r.len() == v.len()
    &&& forall|i: int| 0 <= i < idx.len() ==> 0 <= #[trigger] idx[i] < v.len() && r[i] == v[idx[i]]
    &&& forall|i: int, j: int| 0 <= i < j < idx.len() ==> #[trigger] idx[i] != #[trigger] idx[j]
    &&& forall|i: int, j: int|
        0 <= i < j < r.len() && (#[trigger] r[i]).priority == (#[trigger] r[j]).priority ==> idx[i] < idx[j]
}

/// Sort rules by ascending priority (lower numbers are evaluated first; equal
/// priorities keep their order).
fn sort_by_priority(v: Vec<Rule>) -> (r: Vec<Rule>)
    ensures
        by_priority(r@),
        r@.to_multiset() == v@.to_multiset(),
        exists|idx: Seq<int>| stable_by_priority(r@, v@, idx),
{
    let ghost v0 = v@;
    let mut rest = v;
    let mut out: Vec<Rule> = Vec::new();
    let ghost mut idx: Seq<int> = seq![];
    let ghost mut n: int = 0;
    assert(v0.skip(0) =~= v0);
    while rest.len() > 0
        invariant
            by_priority(out@),
            out@.to_multiset().add(rest@.to_multiset()) == v0.to_multiset(),
            0 <= n <= v0.len(),
            rest@ == v0.skip(n),
            idx.len() == out@.len() == n,
            forall|i: int| 0 <= i < idx.len() ==> 0 <= #[trigger] idx[i] < n && out@[i] == v0[idx[i]],
            forall|i: int, j: int| 0 <= i < j < idx.len() ==> #[trigger] idx[i] != #[trigger] idx[j],
            forall|i: int, j: int|
                0 <= i < j < out@.len() && (#[trigger] out@[i]).priority == (#[trigger] out@[j]).priority
                    ==> idx[i] < idx[j],
        decreases rest.len(),
    {
        let ghost r0 = rest@;
        let x = rest.remove(0);
        assert(r0.remove(0) == rest@);
        assert(x == v0[n]);
        assert(rest@ =~= v0.skip(n + 1));
        assert(r0.to_multiset() == rest@.to_multiset().insert(x)) by {
            vstd::seq_lib::to_multiset_remove(r0, 0);
        }
        let mut j: usize = 0;
        while j < out.len() && out[j].priority <= x.priority
            invariant
                j <= out@.len(),
                forall|k: int| 0 <= k < j ==> #[trigger] out@[k].priority <= x.priority,
            decreases out.len() - j,
        {
            j += 1;
        }
        let ghost o0 = out@;
        let ghost i0 = idx;
        proof {
            if j < out@.len() {
                assert forall|k: int| j <= k < o0.len() implies #[trigger] o0[k].priority > x.priority by {
                    assert(o0[j as int].priority > x.priority);
                    if k > j {
                        assert(o0[j as int].priority <= o0[k].priority);
                    }
                }
            }
        }
        out.insert(j, x);
        assert(out@ == o0.insert(j as int, x));
        proof {
            idx = i0.insert(j as int, n);
            vstd::seq_lib::to_multiset_insert(o0, j as int, x);
            assert forall|a: int, b: int| 0 <= a < b < out@.len() implies (#[trigger] out@[a]).priority
                <= (#[trigger] out@[b]).priority by {
                if b < j {
                    assert(out@[a] == o0[a] && out@[b] == o0[b]);
                } else if b == j {
                    assert(out@[a] == o0[a]);
                } else if a == j {
                    assert(out@[b] == o0[b - 1]);
                } else if a < j {
                    assert(out@[a] == o0[a] && out@[b] == o0[b - 1]);
                } else {
                    assert(out@[a] == o0[a - 1] && out@[b] == o0[b - 1]);
                }
            }
            assert forall|i: int| 0 <= i < idx.len() implies 0 <= #[trigger] idx[i] < n + 1 && out@[i] == v0[idx[i]] by {
                if i < j {
                    assert(idx[i] == i0[i]);
                } else if i > j {
                    assert(idx[i] == i0[i - 1]);
                }
            }
            assert forall|a: int, b: int| 0 <= a < b < idx.len() implies #[trigger] idx[a] != #[trigger] idx[b] by {
                if a < j && b < j {
                    assert(idx[a] == i0[a] && idx[b] == i0[b]);
                } else if a < j && b == j {
                    assert(idx[a] == i0[a]);
                } else if a < j {
                    assert(idx[a] == i0[a] && idx[b] == i0[b - 1]);
                } else if a == j {
                    assert(idx[b] == i0[b - 1]);
                } else {
                    assert(idx[a] == i0[a - 1] && idx[b] == i0[b - 1]);
                }
            }
            assert forall|a: int, b: int|
                0 <= a < b < out@.len() && (#[trigger] out@[a]).priority == (#[trigger] out@[b]).priority
                implies idx[a] < idx[b] by {
                if a < j && b < j {
                    assert(idx[a] == i0[a] && idx[b] == i0[b]);
                    assert(out@[a] == o0[a] && out@[b] == o0[b]);
                } else if a < j && b == j {
                    assert(idx[a] == i0[a]);
                } else if a < j {
                    assert(out@[b] == o0[b - 1]);
                    assert(o0[b - 1].priority > x.priority);
                    assert(out@[a] == o0[a]);
                    assert(o0[a].priority <= x.priority);
                } else if a == j {
                    assert(out@[b] == o0[b - 1]);
                    assert(o0[b - 1].priority > x.priority);
                } else {
                    assert(idx[a] == i0[a - 1] && idx[b] == i0[b - 1]);
                    assert(out@[a] == o0[a - 1] && out@[b] == o0[b - 1]);
                }
            }
            n = n + 1;
            assert(out@.to_multiset().add(rest@.to_multiset()) =~= v0.to_multiset());
        }
    }
    assert(rest@.to_multiset() =~= vstd::multiset::Multiset::<Rule>::empty());
    assert(out@.to_multiset().add(rest@.to_multiset()) =~= out@.to_multiset());
    assert(stable_by_priority(out@, v0, idx));
    out
}

// ─── compilation ────────────────────────────────────────────────────────────

/// Builds rule sets.
pub struct RuleLoader;

impl RuleLoader {
    /// Validate raw rules and compile them into a rule set sorted by priority.
    ///
    /// Every regex pattern is compiled once (case-insensitive patterns get a
    /// `(?i)` prefix) and shared under the key `regex_<n>`.
    pub fn compile(raw: Vec<RuleRaw>) -> (r: Result<RuleSet, RuleError>)
        ensures
            match r {
                Err(e) => !accepted(raw@) && error_owed(e, raw@),
                Ok(set) => {
                    &&& accepted(raw@)
                    &&& by_priority(set.rules@)
                    &&& exists|built: Seq<Rule>|
                        #![trigger built.to_multiset()]
                        built.len() == raw@.len() && (forall|i: int|
                            0 <= i < raw@.len() ==> compiled_from(
                                #[trigger] built[i],
                                raw@[i],
                                all_patterns(raw@),
                            )) && set.rules@.to_multiset() == built.to_multiset() && exists|idx: Seq<int>|
                            stable_by_priority(set.rules@, built, idx)
                    &&& set.compiled_regexes@.len() == all_patterns(raw@).len()
                    &&& forall|k: int|
                        0 <= k < set.compiled_regexes@.len() ==> (#[trigger] set.compiled_regexes@[k]).0@
                            == regex_key(k as nat) && set.compiled_regexes@[k].1@ == all_patterns(
                            raw@,
                        )[k]
                },
            },
    {
        let ghost rs = raw@;
        // Compile every regex pattern once.
        let mut pats: Vec<String> = Vec::new();
        let mut regs: Vec<(String, CompiledRegex)> = Vec::new();
        let mut i: usize = 0;
        assert(rs.skip(0) =~= rs);
        assert(pats_view(pats@) =~= Seq::<Seq<char>>::empty());
        while i < raw.len()
            invariant
                i <= rs.len(),
                raw@ == rs,
                cache_wf(pats@, regs@),
                first_regex_failure(rs, 0) == first_regex_failure(rs, i as int),
                all_patterns(rs) == with_patterns(pats_view(pats@), rules_patterns(rs.skip(i as int))),
            decreases raw.len() - i,
        {
            proof {
                assert(rs.skip(i as int).drop_first() =~= rs.skip(i + 1));
                assert(rs.skip(i as int)[0] == rs[i as int]);
                lemma_with_concat(
                    pats_view(pats@),
                    node_patterns(rs[i as int].condition),
                    rules_patterns(rs.skip(i + 1)),
                );
            }
            match collect_patterns(&raw[i].condition, &mut pats, &mut regs) {
                Ok(()) => {},
                Err(p) => {
                    return Err(RuleError::RegexError { id: raw[i].id.clone(), pattern: p });
                },
            }
            i += 1;
        }
        assert(rs.skip(i as int) =~= Seq::<RuleRaw>::empty());
        assert(pats_view(pats@) == all_patterns(rs));
        // Validate ids, risk deltas and priorities.
        let mut i: usize = 0;
        while i < raw.len()
            invariant
                i <= rs.len(),
                raw@ == rs,
                first_regex_failure(rs, 0) is None,
                first_invalid(rs, 0) == first_invalid(rs, i as int),
            decreases raw.len() - i,
        {
            if seen_before(&raw, i) {
                return Err(RuleError::DuplicateId(raw[i].id.clone()));
            }
            let d = raw[i].risk_score_delta;
            if d < -100 || d > 100 {
                return Err(
                    RuleError::ValidationError { id: raw[i].id.clone(), reason: delta_message(d) },
                );
            }
            if raw[i].priority == 0 {
                let m = chars_of("priority must be >= 1");
                return Err(
                    RuleError::ValidationError {
                        id: raw[i].id.clone(),
                        reason: string_of(m.as_slice()),
                    },
                );
            }
            i += 1;
        }
        // Set the cache keys and build the rules.
        let ghost pv = pats_view(pats@);
        let n = raw.len();
        let mut rest = raw;
        let mut built: Vec<Rule> = Vec::new();
        let mut i: usize = 0;
        assert(rs.skip(0) =~= rs);
        while rest.len() > 0
            invariant
                i <= rs.len(),
                n == rs.len(),
                rest@ == rs.skip(i as int),
                pv == pats_view(pats@),
                pv == all_patterns(rs),
                built@.len() == i,
                forall|k: int| 0 <= k < i ==> compiled_from(#[trigger] built@[k], rs[k], pv),
            decreases rest.len(),
        {
            assert(i < n);
            let r = rest.remove(0);
            assert(r == rs[i as int]);
            proof {
                assert forall|p: Seq<char>| #[trigger]
                    node_patterns(r.condition).contains(p) implies pats_view(pats@).contains(p) by {
                    lemma_rule_patterns(rs, i as int, p);
                    lemma_with_contains(seq![], rules_patterns(rs), p);
                }
            }
            let ghost rv = r;
            let source = match r.source {
                Some(s) => s,
                None => {
                    let m = chars_of("system");
                    string_of(m.as_slice())
                },
            };
            let rule = Rule {
                id: r.id,
                source,
                description: r.description,
                enabled: r.enabled,
                priority: r.priority,
                condition: populate_keys(r.condition, &pats),
                action: r.action,
                risk_score_delta: r.risk_score_delta,
                response: r.response,
                rate_limit: r.rate_limit,
                challenge: r.challenge,
                tier: r.tier,
            };
            assert(compiled_from(rule, rv, pv));
            built.push(rule);
            i += 1;
            assert(rest@ =~= rs.skip(i as int));
        }
        let ghost b = built@;
        let rules = sort_by_priority(built);
        proof {
            assert(rules@.to_multiset() == b.to_multiset());
            assert(exists|idx: Seq<int>| stable_by_priority(rules@, b, idx));
        }
        Ok(RuleSet { rules, compiled_regexes: regs })
    }
}

} // verus!
