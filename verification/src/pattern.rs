//! Regular expressions (the `regex` crate) behind named results.
use vstd::prelude::*;

use crate::crs::types::strings_view;
use crate::text::{ascii_lower, seq_contains};

verus! {

#[verifier::external_type_specification]
#[verifier::external_body]
pub struct ExRegex(regex::Regex);

/// Whether `regex::Regex::new` accepts a pattern.
pub uninterp spec fn regex_compiles(pattern: Seq<char>) -> bool;

/// What `regex::Regex::is_match` answers for the regex built from `pattern` on `hay`.
pub uninterp spec fn regex_matches(pattern: Seq<char>, hay: Seq<char>) -> bool;

/// A compiled regular expression together with its source pattern.
///
/// Only [`compile_regex`] builds one, so `re` is always the regex compiled
/// from `pattern`.
#[derive(Debug)]
pub struct CompiledRegex {
    pattern: String,
    re: regex::Regex,
}

impl View for CompiledRegex {
    type V = Seq<char>;

    closed spec fn view(&self) -> Seq<char> {
        self.pattern@
    }
}

impl CompiledRegex {
    /// The source pattern.
    pub fn pattern(&self) -> (r: &String)
        ensures
            r@ == self@,
    {
        &self.pattern
    }
}

/// `regex::Regex::new(pattern)`: `Some` exactly when the pattern compiles.
#[verifier::external_body]
pub(crate) fn compile_regex(pattern: &str) -> (r: Option<CompiledRegex>)
    ensures
        r is Some <==> regex_compiles(pattern@),
        r matches Some(c) ==> c@ == pattern@,
{
    match regex::Regex::new(pattern) {
        Ok(re) => Some(CompiledRegex { pattern: pattern.to_string(), re }),
        Err(_) => None,
    }
}

/// `regex::Regex::is_match` on a compiled regex.
#[verifier::external_body]
pub(crate) fn regex_is_match(re: &CompiledRegex, hay: &str) -> (r: bool)
    ensures
        r == regex_matches(re@, hay@),
{
    re.re.is_match(hay)
}

/// What `regex::Regex::split` yields for the regex built from `pattern` on `hay`:
/// the text before, between and after its successive matches.
pub uninterp spec fn regex_split_pieces(pattern: Seq<char>, hay: Seq<char>) -> Seq<Seq<char>>;

/// The text of capture group 1 in each match that `regex::Regex::captures_iter`
/// yields for the regex built from `pattern` on `hay`, in order.
pub uninterp spec fn regex_first_groups(pattern: Seq<char>, hay: Seq<char>) -> Seq<Seq<char>>;

/// `regex::Regex::split` on a compiled regex, as owned strings.
#[verifier::external_body]
pub(crate) fn regex_split(re: &CompiledRegex, hay: &str) -> (r: Vec<String>)
    ensures
        strings_view(r@) == regex_split_pieces(re@, hay@),
{
    re.re.split(hay).map(|p| p.to_string()).collect()
}

/// Capture group 1 of each match of `regex::Regex::captures_iter`, for a regex
/// whose group 1 takes part in every match (the caller names the pattern).  There
/// is one match fewer than `split` yields pieces: both walk the same successive
/// non-overlapping matches, and `split` yields the text before each and the rest.
#[verifier::external_body]
pub(crate) fn regex_first_group_each(re: &CompiledRegex, hay: &str) -> (r: Vec<String>)
    requires
        re@ == "@pmFromFile\\s+([A-Za-z0-9._/-]+\\.data)"@,
    ensures
        strings_view(r@) == regex_first_groups(re@, hay@),
        regex_split_pieces(re@, hay@).len() == r@.len() + 1,
{
    re.re.captures_iter(hay).map(|c| c[1].to_string()).collect()
}

/// Whether `pattern` compiles and matches somewhere in `hay`; a pattern that does
/// not compile matches nothing.
pub open spec fn pattern_matches(pattern: Seq<char>, hay: Seq<char>) -> bool {
    regex_compiles(pattern) && regex_matches(pattern, hay)
}

/// Compile `pattern` and test it against `hay` (`Regex::new(p).map(|r| r.is_match(h)).unwrap_or(false)`).
pub fn regex_match_str(pattern: &str, hay: &str) -> (r: bool)
    ensures
        r == pattern_matches(pattern@, hay@),
{
    match compile_regex(pattern) {
        Some(re) => regex_is_match(&re, hay),
        None => false,
    }
}


// ─── phrase sets (the `aho-corasick` crate) ─────────────────────────────────

#[verifier::external_type_specification]
#[verifier::external_body]
pub struct ExAhoCorasick(aho_corasick::AhoCorasick);

/// Whether `AhoCorasickBuilder::build` accepts the phrase list (it refuses lists
/// whose automaton would exceed its internal limits).
pub uninterp spec fn phrase_automaton_builds(phrases: Seq<Seq<char>>) -> bool;

/// ASCII case folding of every character (other characters unchanged).
pub open spec fn ascii_fold(s: Seq<char>) -> Seq<char> {
    s.map_values(|c: char| ascii_lower(c))
}

/// Whether one of the phrases occurs in `hay`, ASCII letters compared without case.
pub open spec fn phrase_occurs(phrases: Seq<Seq<char>>, hay: Seq<char>) -> bool {
    exists|i: int|
        0 <= i < phrases.len() && seq_contains(ascii_fold(hay), ascii_fold(#[trigger] phrases[i]))
}

/// What a phrase matcher built from `phrases` answers on `hay`: an occurrence of a
/// phrase when the automaton could be built, nothing otherwise.
pub open spec fn phrases_match(phrases: Seq<Seq<char>>, hay: Seq<char>) -> bool {
    phrase_automaton_builds(phrases) && phrase_occurs(phrases, hay)
}

/// An ASCII-case-insensitive multi-phrase matcher, with its phrase list.
///
/// Only [`build_phrase_matcher`] builds one: `ac` is the automaton of `phrases`
/// when it could be built, and an automaton of no phrases otherwise.
#[derive(Debug)]
pub struct PhraseMatcher {
    phrases: Vec<String>,
    ac: aho_corasick::AhoCorasick,
}

impl View for PhraseMatcher {
    type V = Seq<Seq<char>>;

    closed spec fn view(&self) -> Seq<Seq<char>> {
        strings_view(self.phrases@)
    }
}

/// `AhoCorasick::builder().ascii_case_insensitive(true).build(phrases)`, falling
/// back to an automaton of no phrases when the build is refused.
#[verifier::external_body]
pub(crate) fn build_phrase_matcher(phrases: Vec<String>) -> (r: PhraseMatcher)
    ensures
        r@ == strings_view(phrases@),
{
    let ac = match aho_corasick::AhoCorasick::builder().ascii_case_insensitive(true).build(
        &phrases,
    ) {
        Ok(ac) => ac,
        Err(_) => aho_corasick::AhoCorasick::builder().ascii_case_insensitive(true).build(
            Vec::<&str>::new(),
        ).unwrap(),
    };
    PhraseMatcher { phrases, ac }
}

/// `AhoCorasick::is_match`: whether a phrase occurs anywhere in `hay`.
#[verifier::external_body]
pub(crate) fn phrase_is_match(m: &PhraseMatcher, hay: &str) -> (r: bool)
    ensures
        r == (phrase_automaton_builds(m@) && phrase_occurs(m@, hay@)),
{
    m.ac.is_match(hay)
}


// ─── shell globs (the `globset` crate) ──────────────────────────────────────

#[verifier::external_type_specification]
#[verifier::external_body]
pub struct ExGlobMatcher(globset::GlobMatcher);

/// Whether `GlobBuilder::new(pattern).case_insensitive(ci).build()` accepts the pattern.
pub uninterp spec fn glob_builds(pattern: Seq<char>, case_insensitive: bool) -> bool;

/// What `GlobMatcher::is_match` answers for the glob built from `pattern` on `subject`.
pub uninterp spec fn glob_is_match(pattern: Seq<char>, case_insensitive: bool, subject: Seq<char>) -> bool;

/// A compiled glob with its source pattern and case mode.
///
/// Only [`compile_glob`] builds one, so `m` is always the matcher of `pattern`.
#[derive(Debug)]
pub struct CompiledGlob {
    pattern: String,
    case_insensitive: bool,
    m: globset::GlobMatcher,
}

impl CompiledGlob {
    pub closed spec fn source(&self) -> Seq<char> {
        self.pattern@
    }

    pub closed spec fn folds_case(&self) -> bool {
        self.case_insensitive
    }
}

/// `GlobBuilder::new(pattern).case_insensitive(ci).build()`, then `compile_matcher`:
/// `Some` exactly when the pattern is accepted.
#[verifier::external_body]
pub(crate) fn compile_glob(pattern: &str, case_insensitive: bool) -> (r: Option<CompiledGlob>)
    ensures
        r is Some <==> glob_builds(pattern@, case_insensitive),
        r matches Some(g) ==> g.source() == pattern@ && g.folds_case() == case_insensitive,
{
    match globset::GlobBuilder::new(pattern).case_insensitive(case_insensitive).build() {
        Ok(g) => Some(CompiledGlob { pattern: pattern.to_string(), case_insensitive, m: g.compile_matcher() }),
        Err(_) => None,
    }
}

/// `GlobMatcher::is_match` on a subject string.
#[verifier::external_body]
pub(crate) fn glob_match_compiled(g: &CompiledGlob, subject: &str) -> (r: bool)
    ensures
        r == glob_is_match(g.source(), g.folds_case(), subject@),
{
    g.m.is_match(subject)
}

/// Whether `pattern` builds as a glob (with the case mode) and matches `subject`.
pub open spec fn glob_matches(pattern: Seq<char>, case_insensitive: bool, subject: Seq<char>) -> bool {
    glob_builds(pattern, case_insensitive) && glob_is_match(pattern, case_insensitive, subject)
}

/// Build the glob and test it (`false` when the pattern is not a glob).
pub fn glob_match_str(pattern: &str, case_insensitive: bool, subject: &str) -> (r: bool)
    ensures
        r == glob_matches(pattern@, case_insensitive, subject@),
{
    match compile_glob(pattern, case_insensitive) {
        Some(g) => glob_match_compiled(&g, subject),
        None => false,
    }
}

} // verus!
