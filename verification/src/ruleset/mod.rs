//! The YAML rule engine: rules are validated and compiled once, sorted by
//! priority, and evaluated first-match-wins (a `log` rule matches and goes on).
use vstd::prelude::*;

use crate::pattern::CompiledRegex;
use crate::ruleset::condition::{eval_node, spec_eval_node};
use crate::ruleset::types::{Action, Rule, RuleSet};
use crate::text::{chars_of, lower_string, str_eq_chars, unicode_lowercase};
use crate::types::Tier;

pub mod condition;
pub mod consul;
pub mod loader;
pub mod types;

verus! {

/// Why a rule set could not be loaded.
#[derive(Debug)]
pub enum RuleError {
    /// A rule file could not be parsed.
    ParseError { file: String, reason: String },
    /// A rule file could not be read or decoded.
    IoError { file: String, reason: String },
    /// A rule breaks a constraint of the schema.
    ValidationError { id: String, reason: String },
    /// Two rules share an id.
    DuplicateId(String),
    /// A regex leaf of the rule does not compile.
    RegexError { id: String, pattern: String },
}

/// The rule that decided a request.
#[derive(Debug, Clone)]
pub struct RuleMatch {
    pub rule_id: String,
    pub description: String,
    pub action: Action,
    pub risk_score_delta: i8,
    pub source: String,
}

/// The request fields that rules test.  Header names are stored lowercase.
#[derive(Debug)]
pub struct RequestContext {
    pub ip: String,
    pub path: String,
    pub method: String,
    pub headers: Vec<(String, String)>,
    pub payload: Vec<u8>,
    pub cookies: Vec<(String, String)>,
    pub tier: Tier,
    pub session_id: String,
    pub device_fp: String,
    pub content_type: Option<String>,
}

impl RuleSet {
    /// The rules that apply to a request: all of them, in priority order (the
    /// evaluator filters by scope).
    pub fn rules_for_context(&self, ctx: &RequestContext) -> (r: &Vec<Rule>)
        ensures
            r@ == self.rules@,
    {
        &self.rules
    }
}

/// Whether `ids` holds `id`.
pub open spec fn skips(ids: Seq<String>, id: Seq<char>) -> bool {
    exists|i: int| 0 <= i < ids.len() && #[trigger] ids[i]@ == id
}

/// Whether a rule's tier filter admits the request's tier: no filter, `global`,
/// or the tier's key (compared in lowercase).
pub open spec fn tier_admits(tier: Option<String>, t: Tier) -> bool {
    match tier {
        None => true,
        Some(s) => unicode_lowercase(s@) == "global"@ || unicode_lowercase(s@) == unicode_lowercase(
            t.spec_config_key(),
        ),
    }
}

/// Whether a rule takes part for this request and its condition holds.
pub open spec fn rule_fires(
    r: Rule,
    ctx: RequestContext,
    skip: Seq<String>,
    cache: Seq<(String, CompiledRegex)>,
) -> bool {
    &&& r.enabled
    &&& !skips(skip, r.id@)
    &&& tier_admits(r.tier, ctx.tier)
    &&& spec_eval_node(r.condition, ctx, cache)
}

/// The index of the first rule from `i` on that fires with an action other than
/// `log`.
pub open spec fn first_decisive(
    rules: Seq<Rule>,
    ctx: RequestContext,
    skip: Seq<String>,
    cache: Seq<(String, CompiledRegex)>,
    i: int,
) -> Option<int>
    decreases rules.len() - i,
{
    if i < 0 || i >= rules.len() {
        None
    } else if rule_fires(rules[i], ctx, skip, cache) && rules[i].action != Action::Log {
        Some(i)
    } else {
        first_decisive(rules, ctx, skip, cache, i + 1)
    }
}

proof fn lemma_first_decisive(
    rules: Seq<Rule>,
    ctx: RequestContext,
    skip: Seq<String>,
    cache: Seq<(String, CompiledRegex)>,
    i: int,
)
    requires
        0 <= i,
    ensures
        match first_decisive(rules, ctx, skip, cache, i) {
            Some(k) => i <= k < rules.len() && rule_fires(rules[k], ctx, skip, cache) && rules[k].action
                != Action::Log && forall|j: int|
                i <= j < k ==> !(rule_fires(rules[j], ctx, skip, cache) && rules[j].action != Action::Log),
            None => forall|j: int|
                i <= j < rules.len() ==> !(rule_fires(rules[j], ctx, skip, cache) && rules[j].action
                    != Action::Log),
        },
    decreases rules.len() - i,
{
    if i < rules.len() {
        lemma_first_decisive(rules, ctx, skip, cache, i + 1);
    }
}

/// First match wins: the rule that decides a request is enabled, not skipped,
/// admitted on the request's tier, true of the request and not a `log` rule,
/// and every rule before it either does not fire or only logs.  When no rule
/// qualifies, nothing decides.
pub proof fn law_first_decisive_match_wins(
    rules: Seq<Rule>,
    ctx: RequestContext,
    skip: Seq<String>,
    cache: Seq<(String, CompiledRegex)>,
)
    ensures
        match first_decisive(rules, ctx, skip, cache, 0) {
            Some(k) => 0 <= k < rules.len() && rules[k].enabled && !skips(skip, rules[k].id@)
                && tier_admits(rules[k].tier, ctx.tier) && spec_eval_node(rules[k].condition, ctx, cache)
                && rules[k].action != Action::Log && forall|j: int|
                0 <= j < k ==> !(rule_fires(rules[j], ctx, skip, cache) && rules[j].action != Action::Log),
            None => forall|j: int|
                0 <= j < rules.len() ==> !(rule_fires(rules[j], ctx, skip, cache) && rules[j].action
                    != Action::Log),
        },
{
    lemma_first_decisive(rules, ctx, skip, cache, 0);
}

/// Whether `m` reports rule `r`.
pub open spec fn reports(m: RuleMatch, r: Rule) -> bool {
    &&& m.rule_id@ == r.id@
    &&& m.description@ == r.description@
    &&& m.action == r.action
    &&& m.risk_score_delta == r.risk_score_delta
    &&& m.source@ == r.source@
}

fn skip_has(skip: &[String], id: &String) -> (r: bool)
    ensures
        r == skips(skip@, id@),
{
    let ic = chars_of(id.as_str());
    let mut i: usize = 0;
    while i < skip.len()
        invariant
            i <= skip@.len(),
            ic@ == id@,
            forall|j: int| 0 <= j < i ==> #[trigger] skip@[j]@ != id@,
        decreases skip.len() - i,
    {
        if str_eq_chars(skip[i].as_str(), ic.as_slice()) {
            return true;
        }
        i += 1;
    }
    false
}

fn tier_ok(tier: &Option<String>, t: Tier) -> (r: bool)
    ensures
        r == tier_admits(*tier, t),
{
    match tier {
        None => true,
        Some(s) => {
            let l = lower_string(s.as_str());
            let g = chars_of("global");
            let key = t.config_key();
            let kl = lower_string(key.as_str());
            let kc = chars_of(kl.as_str());
            str_eq_chars(l.as_str(), g.as_slice()) || str_eq_chars(l.as_str(), kc.as_slice())
        },
    }
}

/// Evaluate the rules of `set` in order: the first enabled, not skipped, tier-
/// admitted rule whose condition holds and whose action is not `log`.
pub fn evaluate_rules(set: &RuleSet, ctx: &RequestContext, skip_rules: &[String]) -> (r: Option<
    RuleMatch,
>)
    ensures
        match first_decisive(set.rules@, *ctx, skip_rules@, set.compiled_regexes@, 0) {
            Some(k) => r matches Some(m) && reports(m, set.rules@[k]),
            None => r is None,
        },
{
    let mut i: usize = 0;
    while i < set.rules.len()
        invariant
            i <= set.rules@.len(),
            first_decisive(set.rules@, *ctx, skip_rules@, set.compiled_regexes@, 0)
                == first_decisive(set.rules@, *ctx, skip_rules@, set.compiled_regexes@, i as int),
        decreases set.rules.len() - i,
    {
        let rule = &set.rules[i];
        if rule.enabled && !skip_has(skip_rules, &rule.id) && tier_ok(&rule.tier, ctx.tier)
            && eval_node(&rule.condition, ctx, &set.compiled_regexes) && rule.action
            != Action::Log {
            return Some(
                RuleMatch {
                    rule_id: rule.id.clone(),
                    description: rule.description.clone(),
                    action: rule.action,
                    risk_score_delta: rule.risk_score_delta,
                    source: rule.source.clone(),
                },
            );
        }
        i += 1;
    }
    None
}

/// Holds the active rule set and evaluates requests against it.
#[derive(Debug)]
pub struct RuleEvaluator {
    ruleset: RuleSet,
}

impl RuleEvaluator {
    pub closed spec fn active(&self) -> RuleSet {
        self.ruleset
    }

    pub fn new(ruleset: RuleSet) -> (r: Self)
        ensures
            r.active() == ruleset,
    {
        RuleEvaluator { ruleset }
    }

    /// Replace the active rule set.
    pub fn update_ruleset(&mut self, new_ruleset: RuleSet)
        ensures
            final(self).active() == new_ruleset,
    {
        self.ruleset = new_ruleset;
    }

    /// The first decisive match of the active rules (see [`evaluate_rules`]).
    pub fn evaluate(&self, ctx: &RequestContext, skip_rules: &[String]) -> (r: Option<RuleMatch>)
        ensures
            match first_decisive(
                self.active().rules@,
                *ctx,
                skip_rules@,
                self.active().compiled_regexes@,
                0,
            ) {
                Some(k) => r matches Some(m) && reports(m, self.active().rules@[k]),
                None => r is None,
            },
    {
        evaluate_rules(&self.ruleset, ctx, skip_rules)
    }
}

} // verus!
