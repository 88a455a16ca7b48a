//! The per-request context that rules are evaluated against.
use vstd::prelude::*;

use crate::crs::tx::{assoc_get, lemma_assoc_end, lemma_assoc_hit, lemma_assoc_skip, str_entries};
use crate::text::{chars_of, str_eq_chars};
use crate::types::{RiskScore, Tier};

verus! {

/// Everything the engine knows about one request.
///
/// `headers` and `extensions` are association lists: a name is looked up at
/// its first occurrence.  Header names are stored lowercase.
#[derive(Debug, Clone)]
pub struct RequestContext {
    pub request_id: String,
    pub arrived_at_ms: u64,
    pub method: String,
    pub path: String,
    pub query: Option<String>,
    pub tier: Tier,
    pub client_ip: String,
    pub xff_header: Option<String>,
    pub headers: Vec<(String, String)>,
    pub body: Option<Vec<u8>>,
    pub session_id: Option<String>,
    pub device_fp: Option<String>,
    pub risk_score: RiskScore,
    pub matched_rule_id: Option<String>,
    pub extensions: Vec<(String, String)>,
}

/// The value stored under `key` in an association list of strings.
pub open spec fn spec_lookup(entries: Seq<(String, String)>, key: Seq<char>) -> Option<Seq<char>> {
    assoc_get(str_entries(entries), key)
}

/// Find `key` in an association list (its first occurrence).
pub fn lookup<'a>(entries: &'a Vec<(String, String)>, key: &str) -> (r: Option<&'a String>)
    ensures
        match r {
            Some(v) => spec_lookup(entries@, key@) == Some(v@),
            None => spec_lookup(entries@, key@) is None,
        },
{
    let ghost s = str_entries(entries@);
    let k = chars_of(key);
    let mut i: usize = 0;
    assert(s.skip(0) =~= s);
    while i < entries.len()
        invariant
            i <= entries@.len(),
            s == str_entries(entries@),
            k@ == key@,
            assoc_get(s, key@) == assoc_get(s.skip(i as int), key@),
        decreases entries.len() - i,
    {
        if str_eq_chars(entries[i].0.as_str(), k.as_slice()) {
            proof {
                lemma_assoc_hit(s, key@, i as int);
            }
            return Some(&entries[i].1);
        }
        proof {
            lemma_assoc_skip(s, key@, i as int);
        }
        i += 1;
    }
    proof {
        lemma_assoc_end(s, key@);
    }
    None
}

} // verus!
