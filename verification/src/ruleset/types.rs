//! Types of the YAML rule schema: raw rules as read, compiled rules, conditions.
use vstd::prelude::*;

use crate::pattern::CompiledRegex;

verus! {

/// A rule file: a list of raw rules.
#[derive(Debug)]
pub struct RuleFile {
    pub rules: Vec<RuleRaw>,
}

/// A rule as read from YAML.
#[derive(Debug)]
pub struct RuleRaw {
    pub id: String,
    pub description: String,
    pub enabled: bool,
    pub priority: u32,
    pub condition: ConditionNode,
    pub action: Action,
    pub risk_score_delta: i8,
    pub response: Option<ResponseConfig>,
    pub rate_limit: Option<RateLimitRule>,
    pub challenge: Option<ChallengeRule>,
    /// Target tier (none: every tier).
    pub tier: Option<String>,
    /// Origin of the rule (`system` or custom).
    pub source: Option<String>,
}

/// A validated rule whose regex leaves point at compiled regexes.
#[derive(Debug)]
pub struct Rule {
    pub id: String,
    pub source: String,
    pub description: String,
    pub enabled: bool,
    pub priority: u32,
    pub condition: ConditionNode,
    pub action: Action,
    pub risk_score_delta: i8,
    pub response: Option<ResponseConfig>,
    pub rate_limit: Option<RateLimitRule>,
    pub challenge: Option<ChallengeRule>,
    pub tier: Option<String>,
}

/// Rules sorted by priority, with the regexes their leaves refer to by key.
#[derive(Debug)]
pub struct RuleSet {
    /// Rules sorted by priority ascending.
    pub rules: Vec<Rule>,
    /// Compiled regexes by cache key.
    pub compiled_regexes: Vec<(String, CompiledRegex)>,
}

/// Action taken when a rule matches.
#[derive(Debug, Clone, Copy, PartialEq, Eq, Structural)]
pub enum Action {
    Allow,
    Block,
    Challenge,
    RateLimit,
    Log,
}

/// Condition tree of a rule.
#[derive(Debug)]
pub enum ConditionNode {
    And(Vec<ConditionNode>),
    Or(Vec<ConditionNode>),
    Leaf(ConditionLeaf),
}

/// A single test of one request field.
#[derive(Debug)]
pub struct ConditionLeaf {
    pub field: Field,
    pub match_type: MatchType,
    pub value: String,
    pub header_name: Option<String>,
    pub cookie_name: Option<String>,
    pub case_sensitive: bool,
    pub negate: bool,
    /// Key of the compiled regex of a `Regex` leaf, set when the rule set is compiled.
    pub compiled_regex_key: Option<String>,
}

/// Request field a leaf tests.
#[derive(Debug, Clone, Copy, PartialEq, Eq, Structural)]
pub enum Field {
    Ip,
    Path,
    Header,
    Payload,
    Cookie,
    Method,
    ContentType,
    SessionId,
    DeviceFp,
}

/// How a leaf compares the field with its value.
#[derive(Debug, Clone, Copy, PartialEq, Eq, Structural)]
pub enum MatchType {
    Exact,
    Wildcard,
    Regex,
    Cidr,
    Presence,
    Absence,
}

/// Custom response of a blocking rule.
#[derive(Debug, Clone)]
pub struct ResponseConfig {
    pub status: u16,
    pub body: Option<String>,
    pub headers: Option<Vec<(String, String)>>,
}

/// Rate-limit settings of a rule.
#[derive(Debug, Clone)]
pub struct RateLimitRule {
    pub scope: RateLimitScope,
    pub window_seconds: u64,
    pub max_requests: u64,
    pub burst_tokens: u64,
    /// Name of the action taken when the limit is breached.
    pub on_breach: String,
}

/// What a rate limit counts by.
#[derive(Debug, Clone, Copy, PartialEq, Eq)]
pub enum RateLimitScope {
    PerIp,
    PerSession,
    PerApiKey,
}

/// Challenge settings of a rule.
#[derive(Debug, Clone, Copy)]
pub struct ChallengeRule {
    pub challenge_type: ChallengeType,
    pub pow_difficulty: Option<u8>,
}

/// Kind of challenge.
#[derive(Debug, Clone, Copy, PartialEq, Eq)]
pub enum ChallengeType {
    Js,
    Pow,
}

} // verus!
