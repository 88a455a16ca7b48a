//! Shared enums and records: decisions, tiers, risk scores, audit entries.
use vstd::prelude::*;

use crate::text::{chars_of, ends_with_chars, starts_with_chars, string_of};

verus! {

/// Final enforcement decision taken by the WAF for a request.
#[derive(Debug, Clone, PartialEq, Eq)]
pub enum Decision {
    Allow,
    Block { reason: String },
    Challenge(ChallengeKind),
    RateLimit { retry_after_secs: u64 },
}

/// Type of challenge to issue to the client.
#[derive(Debug, Clone, Copy, PartialEq, Eq)]
pub enum ChallengeKind {
    /// Browser-side JavaScript challenge.
    JsChallenge,
    /// CPU-bound proof-of-work challenge.
    ProofOfWork,
}

/// An event that changes the accumulated risk score of a client identity.
#[derive(Debug, Clone)]
pub enum RiskEvent {
    RuleMatch { rule_id: String, delta: i32 },
    FailedChallenge,
    BehaviouralAnomaly(AnomalyKind),
    SuspiciousAsn,
    DeviceFingerprintConflict,
    /// Client hit a canary/honeypot endpoint — immediately max score.
    CanaryHit,
    SuccessfulChallenge,
    /// Sustained normal behaviour decays the score over time.
    NormalBehaviourDecay,
}

/// Specific behavioural anomaly kinds.
#[derive(Debug, Clone, Copy, PartialEq, Eq)]
pub enum AnomalyKind {
    UniformRequestTiming,
    ZeroDepthSession,
    MissingRefererOnSensitiveRoute,
    InterRequestIntervalTooFast,
    TransactionSequenceViolation,
}

/// Accumulated risk score for an `{IP + device_fp + session}` identity.
#[derive(Debug, Clone, Copy, PartialEq, Eq, Default)]
pub struct RiskScore(pub u32);

impl RiskScore {
    /// The maximum score (100).
    pub fn max() -> (r: RiskScore)
        ensures
            r.0 == 100,
    {
        RiskScore(100)
    }

    /// The zero score.
    pub fn zero() -> (r: RiskScore)
        ensures
            r.0 == 0,
    {
        RiskScore(0)
    }

    pub fn value(self) -> (r: u32)
        ensures
            r == self.0,
    {
        self.0
    }

    /// Whether the score has reached the maximum (100).
    pub fn is_max(self) -> (r: bool)
        ensures
            r == (self.0 >= 100),
    {
        self.0 >= 100
    }
}

/// Protection tier assigned to a route.
#[derive(Debug, Clone, Copy, PartialEq, Eq)]
pub enum Tier {
    Critical,
    High,
    Medium,
    CatchAll,
}

/// What the WAF does on an internal error on a given tier.
#[derive(Debug, Clone, Copy, PartialEq, Eq)]
pub enum FailMode {
    /// Deny all traffic — used for CRITICAL routes.
    Close,
    /// Pass traffic through — used for MEDIUM / CATCH-ALL.
    Open,
}

/// A route pattern of the tier configuration.
#[derive(Debug, Clone)]
pub struct TierRoute {
    pub pattern: String,
    pub tier: Tier,
}

/// Glob-style route matching: `/**` and `/*` match everything, `/prefix/*`
/// matches the prefix itself and every path under it, anything else is exact.
pub open spec fn route_matches(pattern: Seq<char>, path: Seq<char>) -> bool {
    if pattern == "/**"@ || pattern == "/*"@ {
        true
    } else if "/*"@.is_suffix_of(pattern) {
        let prefix = pattern.subrange(0, pattern.len() - 2);
        path == prefix || (prefix + seq!['/']).is_prefix_of(path)
    } else {
        pattern == path
    }
}

/// Whether `path` matches a route pattern (see [`route_matches`]).
pub fn wildcard_matches(pattern: &str, path: &str) -> (r: bool)
    ensures
        r == route_matches(pattern@, path@),
{
    let p = chars_of(pattern);
    let a = chars_of(path);
    let all = chars_of("/**");
    let star = chars_of("/*");
    if crate::text::chars_eq(p.as_slice(), all.as_slice()) || crate::text::chars_eq(
        p.as_slice(),
        star.as_slice(),
    ) {
        return true;
    }
    if ends_with_chars(p.as_slice(), star.as_slice()) {
        assert(star@.len() == 2) by {
            reveal_strlit("/*");
        }
        let mut prefix = crate::text::slice_chars(p.as_slice(), 0, p.len() - 2);
        let same = crate::text::chars_eq(a.as_slice(), prefix.as_slice());
        let ghost pv = prefix@;
        prefix.push('/');
        assert(prefix@ == pv + seq!['/']);
        return same || starts_with_chars(a.as_slice(), prefix.as_slice());
    }
    crate::text::chars_eq(p.as_slice(), a.as_slice())
}

/// The tier of the first route whose pattern matches `path`, from `i` on.
pub open spec fn tier_from(routes: Seq<TierRoute>, path: Seq<char>, i: int) -> Tier
    decreases routes.len() - i,
{
    if i < 0 || i >= routes.len() {
        Tier::CatchAll
    } else if route_matches(routes[i].pattern@, path) {
        routes[i].tier
    } else {
        tier_from(routes, path, i + 1)
    }
}

impl Tier {
    /// The default fail-mode of this tier: CRITICAL and HIGH routes fail closed,
    /// MEDIUM and CATCH-ALL routes fail open.
    pub fn default_fail_mode(&self) -> (r: FailMode)
        ensures
            r == (match *self {
                Tier::Critical | Tier::High => FailMode::Close,
                Tier::Medium | Tier::CatchAll => FailMode::Open,
            }),
    {
        match self {
            Tier::Critical | Tier::High => FailMode::Close,
            Tier::Medium | Tier::CatchAll => FailMode::Open,
        }
    }

    /// Classify an HTTP path by the configured tier routes: the tier of the first
    /// route whose pattern matches, or CATCH-ALL.
    pub fn from_path(path: &str, routes: &[TierRoute]) -> (r: Tier)
        ensures
            r == tier_from(routes@, path@, 0),
    {
        let mut i: usize = 0;
        while i < routes.len()
            invariant
                i <= routes@.len(),
                tier_from(routes@, path@, 0) == tier_from(routes@, path@, i as int),
            decreases routes.len() - i,
        {
            if wildcard_matches(routes[i].pattern.as_str(), path) {
                return routes[i].tier;
            }
            i += 1;
        }
        Tier::CatchAll
    }

    /// The tier's key in configuration and rule files (`critical`, `high`,
    /// `medium`, `catch_all`).
    pub open spec fn spec_config_key(self) -> Seq<char> {
        match self {
            Tier::Critical => "critical"@,
            Tier::High => "high"@,
            Tier::Medium => "medium"@,
            Tier::CatchAll => "catch_all"@,
        }
    }

    pub fn config_key(&self) -> (r: String)
        ensures
            r@ == self.spec_config_key(),
    {
        let s = match self {
            Tier::Critical => "critical",
            Tier::High => "high",
            Tier::Medium => "medium",
            Tier::CatchAll => "catch_all",
        };
        let cs = chars_of(s);
        string_of(cs.as_slice())
    }

    /// The tier's lowercase name as the rule language sees it
    /// (`critical`, `high`, `medium`, `catchall`).
    pub open spec fn spec_name(self) -> Seq<char> {
        match self {
            Tier::Critical => "critical"@,
            Tier::High => "high"@,
            Tier::Medium => "medium"@,
            Tier::CatchAll => "catchall"@,
        }
    }

    pub fn name(&self) -> (r: String)
        ensures
            r@ == self.spec_name(),
    {
        let s = match self {
            Tier::Critical => "critical",
            Tier::High => "high",
            Tier::Medium => "medium",
            Tier::CatchAll => "catchall",
        };
        let cs = chars_of(s);
        string_of(cs.as_slice())
    }
}

/// One entry written to the append-only audit log.
#[derive(Debug, Clone)]
pub struct AuditEntry {
    /// Unique request identifier (UUIDv4).
    pub request_id: String,
    /// Unix timestamp in milliseconds.
    pub ts_ms: i64,
    pub ip: String,
    pub device_fp: Option<String>,
    pub session_id: Option<String>,
    pub method: String,
    pub path: String,
    pub risk_score: u32,
    /// ID of the rule that triggered the action, if any.
    pub rule_id: Option<String>,
    pub action: Decision,
    pub tier: Tier,
}

} // verus!
