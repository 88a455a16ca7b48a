//! Decisions of the reverse proxy: the upstream circuit breaker, upstream
//! selection by routing rules, and the response owed for each decision.
use vstd::prelude::*;

use crate::context::{lookup, spec_lookup};
use crate::rule::{Condition, Rule};
use crate::text::{chars_of, push_str, str_eq_chars, string_of, u128_digits};
use crate::types::{route_matches, wildcard_matches, Decision};

verus! {

// ─── circuit breaker ────────────────────────────────────────────────────────

/// Circuit-breaker states.
#[derive(Debug, Clone, Copy, PartialEq, Eq, Structural)]
pub enum CircuitState {
    /// Normal: requests flow through.
    Closed,
    /// Tripped: requests fail fast with 503.
    Open,
    /// Probe: one request is let through to test recovery.
    HalfOpen,
}

/// The breaker's state as plain values.
pub struct BreakerView {
    pub state: CircuitState,
    pub failures: u32,
    pub tripped_at_secs: Option<u64>,
    pub threshold: u32,
    pub recovery_secs: u64,
}

/// The state after one more consecutive failure at time `now`: the counter grows
/// (saturating); a failed probe, or reaching the threshold, trips the breaker.
pub open spec fn after_failure(v: BreakerView, now: u64) -> BreakerView {
    let f: u32 = if v.failures == u32::MAX {
        v.failures
    } else {
        (v.failures + 1) as u32
    };
    let trip = v.state == CircuitState::HalfOpen || f >= v.threshold;
    BreakerView {
        state: if trip {
            CircuitState::Open
        } else {
            v.state
        },
        failures: f,
        tripped_at_secs: if trip {
            Some(now)
        } else {
            v.tripped_at_secs
        },
        threshold: v.threshold,
        recovery_secs: v.recovery_secs,
    }
}

/// The state after a success: the counter is reset and a half-open breaker closes.
pub open spec fn after_success(v: BreakerView) -> BreakerView {
    BreakerView {
        state: if v.state == CircuitState::HalfOpen {
            CircuitState::Closed
        } else {
            v.state
        },
        failures: 0,
        tripped_at_secs: v.tripped_at_secs,
        threshold: v.threshold,
        recovery_secs: v.recovery_secs,
    }
}

/// Whether an open breaker has waited out its recovery period at time `now`.
pub open spec fn recovered(v: BreakerView, now: u64) -> bool {
    match v.tripped_at_secs {
        Some(t) => now >= t && now - t >= v.recovery_secs,
        None => true,
    }
}

/// The state observed at time `now`: an open breaker whose recovery period has
/// passed becomes half-open.
pub open spec fn observed(v: BreakerView, now: u64) -> BreakerView {
    if v.state == CircuitState::Open && recovered(v, now) {
        BreakerView { state: CircuitState::HalfOpen, ..v }
    } else {
        v
    }
}

/// A circuit breaker for one upstream.  Time is passed in by the caller, in
/// seconds of a monotonic clock.
#[derive(Debug, Clone)]
pub struct CircuitBreaker {
    state: CircuitState,
    consecutive_failures: u32,
    failure_threshold: u32,
    recovery_secs: u64,
    last_tripped_at: Option<u64>,
}

impl View for CircuitBreaker {
    type V = BreakerView;

    closed spec fn view(&self) -> BreakerView {
        BreakerView {
            state: self.state,
            failures: self.consecutive_failures,
            tripped_at_secs: self.last_tripped_at,
            threshold: self.failure_threshold,
            recovery_secs: self.recovery_secs,
        }
    }
}

impl CircuitBreaker {
    /// A closed breaker with no failures.
    pub fn new(failure_threshold: u32, recovery_secs: u64) -> (r: Self)
        ensures
            r@ == (BreakerView {
                state: CircuitState::Closed,
                failures: 0,
                tripped_at_secs: None,
                threshold: failure_threshold,
                recovery_secs,
            }),
    {
        CircuitBreaker {
            state: CircuitState::Closed,
            consecutive_failures: 0,
            failure_threshold,
            recovery_secs,
            last_tripped_at: None,
        }
    }

    /// The current state at time `now`; an open breaker whose recovery period has
    /// passed turns half-open.
    pub fn state(&mut self, now_secs: u64) -> (r: CircuitState)
        ensures
            final(self)@ == observed(old(self)@, now_secs),
            r == final(self)@.state,
    {
        if self.state == CircuitState::Open {
            let done = match self.last_tripped_at {
                Some(t) => now_secs >= t && now_secs - t >= self.recovery_secs,
                None => true,
            };
            if done {
                self.state = CircuitState::HalfOpen;
            }
        }
        self.state
    }

    /// Record a successful upstream call: reset the failure counter and close a
    /// half-open circuit.
    pub fn record_success(&mut self)
        ensures
            final(self)@ == after_success(old(self)@),
    {
        self.consecutive_failures = 0;
        if self.state == CircuitState::HalfOpen {
            self.state = CircuitState::Closed;
        }
    }

    /// Record a failed upstream call at time `now`: count it, and trip the circuit
    /// when the threshold is reached or the probe of a half-open circuit failed.
    pub fn record_failure(&mut self, now_secs: u64)
        ensures
            final(self)@ == after_failure(old(self)@, now_secs),
    {
        if self.consecutive_failures < u32::MAX {
            self.consecutive_failures = self.consecutive_failures + 1;
        }
        if self.state == CircuitState::HalfOpen || self.consecutive_failures >= self.failure_threshold {
            self.state = CircuitState::Open;
            self.last_tripped_at = Some(now_secs);
        }
    }
}

/// `n` failures in a row from a closed breaker with a clean counter.
pub open spec fn failures_from(v: BreakerView, n: nat, now: u64) -> BreakerView
    decreases n,
{
    if n == 0 {
        v
    } else {
        after_failure(failures_from(v, (n - 1) as nat, now), now)
    }
}

proof fn lemma_failures_count(v: BreakerView, n: nat, now: u64)
    requires
        v.state == CircuitState::Closed,
        v.failures == 0,
        n <= v.threshold,
    ensures
        failures_from(v, n, now).failures == n,
        failures_from(v, n, now).threshold == v.threshold,
        n < v.threshold ==> failures_from(v, n, now).state == CircuitState::Closed,
        n > 0 && n == v.threshold ==> failures_from(v, n, now).state == CircuitState::Open,
    decreases n,
{
    if n > 0 {
        lemma_failures_count(v, (n - 1) as nat, now);
    }
}

proof fn lemma_failures_stay_open(v: BreakerView, n: nat, now: u64)
    requires
        v.state == CircuitState::Closed,
        v.failures == 0,
        v.threshold > 0,
        n >= v.threshold,
    ensures
        failures_from(v, n, now).state == CircuitState::Open,
    decreases n,
{
    if n == v.threshold {
        lemma_failures_count(v, n, now);
    } else {
        lemma_failures_stay_open(v, (n - 1) as nat, now);
    }
}

/// A closed breaker opens once `threshold` consecutive failures have been
/// recorded, stays open under every further failure, and is closed before.
pub proof fn law_breaker_opens_at_threshold(v: BreakerView, now: u64)
    requires
        v.state == CircuitState::Closed,
        v.failures == 0,
        v.threshold > 0,
    ensures
        forall|n: nat| n >= v.threshold ==> #[trigger] failures_from(v, n, now).state
            == CircuitState::Open,
        forall|n: nat| n < v.threshold ==> #[trigger] failures_from(v, n, now).state
            == CircuitState::Closed,
{
    assert forall|n: nat| n >= v.threshold implies #[trigger] failures_from(v, n, now).state
        == CircuitState::Open by {
        lemma_failures_stay_open(v, n, now);
    }
    assert forall|n: nat| n < v.threshold implies #[trigger] failures_from(v, n, now).state
        == CircuitState::Closed by {
        lemma_failures_count(v, n, now);
    }
}

/// A success always clears the failure counter, and closes a half-open breaker.
pub proof fn law_success_resets(v: BreakerView)
    ensures
        after_success(v).failures == 0,
        v.state == CircuitState::HalfOpen ==> after_success(v).state == CircuitState::Closed,
{
}

/// An open breaker stays open until its recovery period has passed, and then lets
/// a probe through.
pub proof fn law_open_until_recovered(v: BreakerView, now: u64)
    requires
        v.state == CircuitState::Open,
    ensures
        !recovered(v, now) ==> observed(v, now).state == CircuitState::Open,
        recovered(v, now) ==> observed(v, now).state == CircuitState::HalfOpen,
{
}

/// A failed probe trips the breaker again at once.
pub proof fn law_failed_probe_reopens(v: BreakerView, now: u64)
    requires
        v.state == CircuitState::HalfOpen,
    ensures
        after_failure(v, now).state == CircuitState::Open,
        after_failure(v, now).tripped_at_secs == Some(now),
{
}

// ─── upstream selection ─────────────────────────────────────────────────────

/// Whether a routing condition matches a path: exact and wildcard path leaves,
/// and their `And`/`Or` combinations; every other condition does not route.
pub open spec fn spec_path_condition_matches(c: Condition, path: Seq<char>) -> bool
    decreases c,
{
    match c {
        Condition::PathExact { value } => value@ == path,
        Condition::PathWildcard { pattern } => route_matches(pattern@, path),
        Condition::And(cs) => {
            proof {
                assert(decreases_to!(cs => cs@));
            }
            all_route(cs@, path)
        },
        Condition::Or(cs) => {
            proof {
                assert(decreases_to!(cs => cs@));
            }
            any_route(cs@, path)
        },
        _ => false,
    }
}

pub open spec fn all_route(cs: Seq<Condition>, path: Seq<char>) -> bool
    decreases cs,
{
    if cs.len() == 0 {
        true
    } else {
        proof {
            assert(cs.drop_first() =~= cs.subrange(1, cs.len() as int));
        }
        spec_path_condition_matches(cs[0], path) && all_route(cs.drop_first(), path)
    }
}

pub open spec fn any_route(cs: Seq<Condition>, path: Seq<char>) -> bool
    decreases cs,
{
    if cs.len() == 0 {
        false
    } else {
        proof {
            assert(cs.drop_first() =~= cs.subrange(1, cs.len() as int));
        }
        spec_path_condition_matches(cs[0], path) || any_route(cs.drop_first(), path)
    }
}

/// Whether a routing condition matches `path`.
#[verifier::loop_isolation(false)]
pub fn path_condition_matches(condition: &Condition, path: &str) -> (r: bool)
    ensures
        r == spec_path_condition_matches(*condition, path@),
    decreases condition,
{
    match condition {
        Condition::PathExact { value } => {
            let p = chars_of(path);
            str_eq_chars(value.as_str(), p.as_slice())
        },
        Condition::PathWildcard { pattern } => wildcard_matches(pattern.as_str(), path),
        Condition::And(cs) => {
            let mut i: usize = 0;
            let mut all = true;
            assert(cs@.skip(0) =~= cs@);
            while all && i < cs.len()
                invariant
                    i <= cs@.len(),
                    all ==> all_route(cs@, path@) == all_route(cs@.skip(i as int), path@),
                    !all ==> !all_route(cs@, path@),
                decreases cs.len() - i,
            {
                proof {
                    assert(decreases_to!(*condition => *cs));
                    assert(decreases_to!(*cs => cs@));
                    assert(decreases_to!(cs@ => cs@[i as int]));
                    assert(cs@.skip(i as int).drop_first() =~= cs@.skip(i + 1));
                }
                if !path_condition_matches(&cs[i], path) {
                    all = false;
                }
                i += 1;
            }
            proof {
                if all {
                    assert(cs@.skip(i as int).len() == 0);
                }
            }
            all
        },
        Condition::Or(cs) => {
            let mut i: usize = 0;
            let mut any = false;
            assert(cs@.skip(0) =~= cs@);
            while !any && i < cs.len()
                invariant
                    i <= cs@.len(),
                    !any ==> any_route(cs@, path@) == any_route(cs@.skip(i as int), path@),
                    any ==> any_route(cs@, path@),
                decreases cs.len() - i,
            {
                proof {
                    assert(decreases_to!(*condition => *cs));
                    assert(decreases_to!(*cs => cs@));
                    assert(decreases_to!(cs@ => cs@[i as int]));
                    assert(cs@.skip(i as int).drop_first() =~= cs@.skip(i + 1));
                }
                if path_condition_matches(&cs[i], path) {
                    any = true;
                }
                i += 1;
            }
            proof {
                if !any {
                    assert(cs@.skip(i as int).len() == 0);
                }
            }
            any
        },
        _ => false,
    }
}

/// Whether rule `r` routes `path` to a configured backend.
pub open spec fn routes_to_backend(
    r: Rule,
    path: Seq<char>,
    backends: Seq<(String, String)>,
) -> bool {
    r.upstream_backend matches Some(b) && spec_path_condition_matches(r.condition, path)
        && spec_lookup(backends, b@) is Some
}

/// The upstream chosen for `path` from rule `i` on: the backend of the first rule
/// that routes the path, or the default upstream.
pub open spec fn spec_upstream_from(
    rules: Seq<Rule>,
    path: Seq<char>,
    backends: Seq<(String, String)>,
    default: Seq<char>,
    i: int,
) -> Seq<char>
    decreases rules.len() - i,
{
    if i < 0 || i >= rules.len() {
        default
    } else if routes_to_backend(rules[i], path, backends) {
        spec_lookup(backends, rules[i].upstream_backend->Some_0@)->Some_0
    } else {
        spec_upstream_from(rules, path, backends, default, i + 1)
    }
}

/// Select the upstream URL for `path`: walking the rules in order, the backend URL
/// of the first rule that names a configured backend and whose condition matches
/// the path; otherwise the default upstream.
pub fn resolve_upstream(
    path: &str,
    rules: &Vec<Rule>,
    backends: &Vec<(String, String)>,
    default_upstream: &String,
) -> (r: String)
    ensures
        r@ == spec_upstream_from(rules@, path@, backends@, default_upstream@, 0),
{
    let mut i: usize = 0;
    while i < rules.len()
        invariant
            i <= rules@.len(),
            spec_upstream_from(rules@, path@, backends@, default_upstream@, 0)
                == spec_upstream_from(rules@, path@, backends@, default_upstream@, i as int),
        decreases rules.len() - i,
    {
        let rule = &rules[i];
        match &rule.upstream_backend {
            Some(name) => {
                if path_condition_matches(&rule.condition, path) {
                    match lookup(backends, name.as_str()) {
                        Some(url) => {
                            return url.clone();
                        },
                        None => {},
                    }
                }
            },
            None => {},
        }
        i += 1;
    }
    default_upstream.clone()
}

/// The upstream request target: base URL, path, and `?query` when there is one.
pub open spec fn spec_upstream_target(base: Seq<char>, path: Seq<char>, query: Option<Seq<char>>) -> Seq<char> {
    match query {
        Some(q) => base + path + seq!['?'] + q,
        None => base + path,
    }
}

pub fn upstream_target(base: &str, path: &str, query: Option<&str>) -> (r: String)
    ensures
        r@ == spec_upstream_target(base@, path@, match query {
            Some(q) => Some(q@),
            None => None,
        }),
{
    let mut out = chars_of(base);
    push_str(&mut out, path);
    match query {
        Some(q) => {
            out.push('?');
            push_str(&mut out, q);
        },
        None => {},
    }
    string_of(out.as_slice())
}

// ─── responses ──────────────────────────────────────────────────────────────

/// What the proxy answers instead of forwarding: status, JSON error message, and
/// `Retry-After` seconds for a rate limit.  `None` for `Allow` (forward upstream).
pub struct Refusal {
    pub status: u16,
    pub message: String,
    pub retry_after_secs: Option<u64>,
}

/// The refusal owed for each decision: 403 `blocked: <reason>` for a block, 403
/// `challenge required` for a challenge, 429 with `Retry-After` for a rate limit.
pub open spec fn spec_refusal(d: Decision) -> Option<(u16, Seq<char>, Option<u64>)> {
    match d {
        Decision::Allow => None,
        Decision::Block { reason } => Some((403u16, "blocked: "@ + reason@, None)),
        Decision::Challenge(_) => Some((403u16, "challenge required"@, None)),
        Decision::RateLimit { retry_after_secs } => Some(
            (429u16, "rate limit exceeded"@, Some(retry_after_secs)),
        ),
    }
}

pub fn refusal_for(d: &Decision) -> (r: Option<Refusal>)
    ensures
        match r {
            Some(f) => spec_refusal(*d) == Some((f.status, f.message@, f.retry_after_secs)),
            None => spec_refusal(*d) is None,
        },
{
    match d {
        Decision::Allow => None,
        Decision::Block { reason } => {
            let mut m = chars_of("blocked: ");
            push_str(&mut m, reason.as_str());
            Some(Refusal { status: 403, message: string_of(m.as_slice()), retry_after_secs: None })
        },
        Decision::Challenge(_) => {
            let m = chars_of("challenge required");
            Some(Refusal { status: 403, message: string_of(m.as_slice()), retry_after_secs: None })
        },
        Decision::RateLimit { retry_after_secs } => {
            let m = chars_of("rate limit exceeded");
            Some(
                Refusal {
                    status: 429,
                    message: string_of(m.as_slice()),
                    retry_after_secs: Some(*retry_after_secs),
                },
            )
        },
    }
}

/// TLS settings of the listener: the certificate and key files, the CA that
/// client certificates must chain to when mutual TLS is required, and the
/// allowed TLS 1.3 cipher suites.
#[derive(Debug, Clone)]
pub struct TlsConfig {
    pub cert_path: String,
    pub key_path: String,
    /// If set, require and validate client certificates (mTLS).
    pub client_ca_path: Option<String>,
    /// Allowed cipher suites (TLS 1.3 names).
    pub cipher_suites: Vec<String>,
}

} // verus!
