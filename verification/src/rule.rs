//! Rules of the YAML rule format: scope, condition tree and action.
use vstd::prelude::*;

use crate::types::Tier;

verus! {

/// A single rule loaded from a YAML file.
#[derive(Debug)]
pub struct Rule {
    pub id: String,
    /// Lower numbers take precedence.
    pub priority: u32,
    pub scope: RuleScope,
    pub condition: Condition,
    pub action: RuleAction,
    /// Positive = increase risk score; negative = decrease.
    pub risk_score_delta: i32,
    /// If set, routes matching requests to this named backend.
    pub upstream_backend: Option<String>,
}

/// Where the rule applies.
#[derive(Debug, Clone)]
pub enum RuleScope {
    Global,
    Tier(Tier),
    RoutePattern(String),
    Ip(String),
    Session(String),
    DeviceFingerprint(String),
}

/// Condition tree that must evaluate to `true` for the rule to fire.
#[derive(Debug)]
pub enum Condition {
    IpExact { value: String },
    IpInBlacklist,
    IpInWhitelist,
    PathExact { value: String },
    PathWildcard { pattern: String },
    PathRegex { pattern: String },
    HeaderExact { name: String, value: String },
    HeaderRegex { name: String, pattern: String },
    PayloadRegex { pattern: String },
    CookieExact { name: String, value: String },
    RateLimitExceeded,
    SqliPattern,
    XssPattern,
    PathTraversalPattern,
    SsrfPattern,
    HeaderInjectionPattern,
    And(Vec<Condition>),
    Or(Vec<Condition>),
    Not(Box<Condition>),
}

/// Action the WAF takes when the condition matches.
#[derive(Debug, Clone, Copy, PartialEq, Eq)]
pub enum RuleAction {
    Allow,
    Block,
    Challenge,
    RateLimit,
    Log,
}


broadcast use vstd::seq_lib::group_to_multiset_ensures;

/// Rules in ascending priority.
pub open spec fn by_priority(rs: Seq<Rule>) -> bool {
    forall|i: int, j: int| 0 <= i < j < rs.len() ==> (#[trigger] rs[i]).priority <= (#[trigger] rs[j]).priority
}

/// `r` is `v` reordered (`r[i]` is `v[idx[i]]`, each position of `v` used
/// once) with rules of equal priority kept in their order in `v`.
pub open spec fn stable_reorder(r: Seq<Rule>, v: Seq<Rule>, idx: Seq<int>) -> bool {
    &&& idx.len() == r.len() && r.len() == v.len()
    &&& forall|i: int| 0 <= i < idx.len() ==> 0 <= #[trigger] idx[i] < v.len() && r[i] == v[idx[i]]
    &&& forall|i: int, j: int| 0 <= i < j < idx.len() ==> #[trigger] idx[i] != #[trigger] idx[j]
    &&& forall|i: int, j: int|
        0 <= i < j < r.len() && (#[trigger] r[i]).priority == (#[trigger] r[j]).priority ==> idx[i] < idx[j]
}

/// Sort rules by ascending priority (lower numbers are evaluated first; equal
/// priorities keep their order).
pub fn sort_by_priority(v: Vec<Rule>) -> (r: Vec<Rule>)
    ensures
        by_priority(r@),
        r@.to_multiset() == v@.to_multiset(),
        exists|idx: Seq<int>| stable_reorder(r@, v@, idx),
{
    let ghost v0 = v@;
    let mut rest = v;
    let mut out: Vec<Rule> = Vec::new();
    let ghost mut idx: Seq<int> = seq![];
    let ghost mut n: int = 0;
    assert(v0.skip(0) =~= v0);
    while rest.len() > 0
        invariant
            by_priority(out@),
            out@.to_multiset().add(rest@.to_multiset()) == v0.to_multiset(),
            0 <= n <= v0.len(),
            rest@ == v0.skip(n),
            idx.len() == out@.len() == n,
            forall|i: int| 0 <= i < idx.len() ==> 0 <= #[trigger] idx[i] < n && out@[i] == v0[idx[i]],
            forall|i: int, j: int| 0 <= i < j < idx.len() ==> #[trigger] idx[i] != #[trigger] idx[j],
            forall|i: int, j: int|
                0 <= i < j < out@.len() && (#[trigger] out@[i]).priority == (#[trigger] out@[j]).priority
                    ==> idx[i] < idx[j],
        decreases rest.len(),
    {
        let ghost r0 = rest@;
        let x = rest.remove(0);
        assert(r0.remove(0) == rest@);
        assert(x == v0[n]);
        assert(rest@ =~= v0.skip(n + 1));
        assert(r0.to_multiset() == rest@.to_multiset().insert(x)) by {
            vstd::seq_lib::to_multiset_remove(r0, 0);
        }
        let mut j: usize = 0;
        while j < out.len() && out[j].priority <= x.priority
            invariant
                j <= out@.len(),
                forall|k: int| 0 <= k < j ==> #[trigger] out@[k].priority <= x.priority,
            decreases out.len() - j,
        {
            j += 1;
        }
        let ghost o0 = out@;
        let ghost i0 = idx;
        proof {
            if j < out@.len() {
                assert forall|k: int| j <= k < o0.len() implies #[trigger] o0[k].priority > x.priority by {
                    assert(o0[j as int].priority > x.priority);
                    if k > j {
                        assert(o0[j as int].priority <= o0[k].priority);
                    }
                }
            }
        }
        out.insert(j, x);
        assert(out@ == o0.insert(j as int, x));
        proof {
            idx = i0.insert(j as int, n);
            vstd::seq_lib::to_multiset_insert(o0, j as int, x);
            assert forall|a: int, b: int| 0 <= a < b < out@.len() implies (#[trigger] out@[a]).priority
                <= (#[trigger] out@[b]).priority by {
                if b < j {
                    assert(out@[a] == o0[a] && out@[b] == o0[b]);
                } else if b == j {
                    assert(out@[a] == o0[a]);
                } else if a == j {
                    assert(out@[b] == o0[b - 1]);
                } else if a < j {
                    assert(out@[a] == o0[a] && out@[b] == o0[b - 1]);
                } else {
                    assert(out@[a] == o0[a - 1] && out@[b] == o0[b - 1]);
                }
            }
            assert forall|i: int| 0 <= i < idx.len() implies 0 <= #[trigger] idx[i] < n + 1 && out@[i] == v0[idx[i]] by {
                if i < j {
                    assert(idx[i] == i0[i]);
                } else if i > j {
                    assert(idx[i] == i0[i - 1]);
                }
            }
            assert forall|a: int, b: int| 0 <= a < b < idx.len() implies #[trigger] idx[a] != #[trigger] idx[b] by {
                if a < j && b < j {
                    assert(idx[a] == i0[a] && idx[b] == i0[b]);
                } else if a < j && b == j {
                    assert(idx[a] == i0[a]);
                } else if a < j {
                    assert(idx[a] == i0[a] && idx[b] == i0[b - 1]);
                } else if a == j {
                    assert(idx[b] == i0[b - 1]);
                } else {
                    assert(idx[a] == i0[a - 1] && idx[b] == i0[b - 1]);
                }
            }
            assert forall|a: int, b: int|
                0 <= a < b < out@.len() && (#[trigger] out@[a]).priority == (#[trigger] out@[b]).priority
                implies idx[a] < idx[b] by {
                if a < j && b < j {
                    assert(idx[a] == i0[a] && idx[b] == i0[b]);
                    assert(out@[a] == o0[a] && out@[b] == o0[b]);
                } else if a < j && b == j {
                    assert(idx[a] == i0[a]);
                } else if a < j {
                    assert(out@[b] == o0[b - 1]);
                    assert(o0[b - 1].priority > x.priority);
                    assert(out@[a] == o0[a]);
                    assert(o0[a].priority <= x.priority);
                } else if a == j {
                    assert(out@[b] == o0[b - 1]);
                    assert(o0[b - 1].priority > x.priority);
                } else {
                    assert(idx[a] == i0[a - 1] && idx[b] == i0[b - 1]);
                    assert(out@[a] == o0[a - 1] && out@[b] == o0[b - 1]);
                }
            }
            n = n + 1;
            assert(out@.to_multiset().add(rest@.to_multiset()) =~= v0.to_multiset());
        }
    }
    assert(rest@.to_multiset() =~= vstd::multiset::Multiset::<Rule>::empty());
    assert(out@.to_multiset().add(rest@.to_multiset()) =~= out@.to_multiset());
    assert(stable_reorder(out@, v0, idx));
    out
}

} // verus!
