//! Rule files stored in the Consul key-value store under `waf/rules/`.
use vstd::prelude::*;

use crate::ruleset::RuleError;
use crate::text::{chars_of, ends_with_chars, str_from_utf8, string_of};

verus! {

/// What the standard base64 alphabet (with padding) decodes `s` to, when it is
/// valid base64.
pub uninterp spec fn base64_standard_decode(s: Seq<char>) -> Option<Seq<u8>>;

/// `base64::engine::general_purpose::STANDARD.decode(s).ok()`.
#[verifier::external_body]
fn base64_decode(s: &str) -> (r: Option<Vec<u8>>)
    ensures
        match r {
            Some(b) => base64_standard_decode(s@) == Some(b@),
            None => base64_standard_decode(s@) is None,
        },
{
    base64::Engine::decode(&base64::engine::general_purpose::STANDARD, s).ok()
}

/// The text stored under a key, decoded from base64 and UTF-8 (`None` when it is
/// not valid).
pub open spec fn stored_text(v: Seq<char>) -> Option<Seq<char>> {
    match base64_standard_decode(v) {
        Some(b) => if vstd::utf8::valid_utf8(b) {
            Some(vstd::utf8::decode_utf8(b))
        } else {
            None
        },
        None => None,
    }
}

/// Whether a key names a rule file (`.yaml`).
pub open spec fn is_rule_key(k: Seq<char>) -> bool {
    ".yaml"@.is_suffix_of(k)
}

/// The rule files among the entries (key, base64 value) from entry `i` on: every
/// `.yaml` key with a value, with its decoded text; `Err` names the first such key
/// whose value does not decode.
pub open spec fn spec_rule_files(kvs: Seq<(Seq<char>, Option<Seq<char>>)>, i: int) -> Result<
    Seq<(Seq<char>, Seq<char>)>,
    Seq<char>,
>
    decreases kvs.len() - i,
{
    if i < 0 || i >= kvs.len() {
        Ok(seq![])
    } else if !is_rule_key(kvs[i].0) || kvs[i].1 is None {
        spec_rule_files(kvs, i + 1)
    } else {
        match stored_text(kvs[i].1->Some_0) {
            None => Err(kvs[i].0),
            Some(t) => match spec_rule_files(kvs, i + 1) {
                Ok(rest) => Ok(seq![(kvs[i].0, t)] + rest),
                Err(k) => Err(k),
            },
        }
    }
}

pub open spec fn entries_view(v: Seq<(String, Option<String>)>) -> Seq<(Seq<char>, Option<Seq<char>>)> {
    v.map_values(
        |e: (String, Option<String>)|
            (
                e.0@,
                match e.1 {
                    Some(s) => Some(s@),
                    None => None,
                },
            ),
    )
}

pub open spec fn files_view(v: Seq<(String, String)>) -> Seq<(Seq<char>, Seq<char>)> {
    v.map_values(|e: (String, String)| (e.0@, e.1@))
}

/// Decode the rule files of a recursive key listing: `.yaml` keys with a value,
/// decoded from base64 and then UTF-8; the first value that does not decode is
/// an I/O error naming its key.
pub fn decode_rule_files(kvs: &Vec<(String, Option<String>)>) -> (r: Result<Vec<(String, String)>, RuleError>)
    ensures
        match r {
            Ok(files) => spec_rule_files(entries_view(kvs@), 0) == Ok::<Seq<(Seq<char>, Seq<char>)>, Seq<char>>(files_view(files@)),
            Err(e) => spec_rule_files(entries_view(kvs@), 0) matches Err(k) && e matches RuleError::IoError { file, reason } && file@ == k,
        },
{
    let ghost ev = entries_view(kvs@);
    let suffix = chars_of(".yaml");
    let mut out: Vec<(String, String)> = Vec::new();
    let mut i: usize = 0;
    while i < kvs.len()
        invariant
            i <= kvs@.len(),
            ev == entries_view(kvs@),
            suffix@ == ".yaml"@,
            spec_rule_files(ev, 0) == (match spec_rule_files(ev, i as int) {
                Ok(rest) => Ok(files_view(out@) + rest),
                Err(k) => Err(k),
            }),
        decreases kvs.len() - i,
    {
        let kc = chars_of(kvs[i].0.as_str());
        let wanted = ends_with_chars(kc.as_slice(), suffix.as_slice());
        assert(ev[i as int].0 == kvs@[i as int].0@);
        if wanted {
            match &kvs[i].1 {
                Some(v) => {
                    let text = match base64_decode(v.as_str()) {
                        Some(bytes) => str_from_utf8(bytes.as_slice()),
                        None => None,
                    };
                    match text {
                        Some(t) => {
                            let ghost o0 = files_view(out@);
                            let ghost tv = t@;
                            assert(ev[i as int].1 == Some(v@));
                            assert(stored_text(v@) == Some(tv));
                            out.push((kvs[i].0.clone(), t));
                            assert(files_view(out@) =~= o0 + seq![(ev[i as int].0, tv)]);
                            proof {
                                match spec_rule_files(ev, i + 1) {
                                    Ok(rest) => {
                                        assert((o0 + seq![(ev[i as int].0, tv)]) + rest =~= o0 + (seq![(ev[i as int].0, tv)] + rest));
                                    },
                                    Err(_) => {},
                                }
                            }
                        },
                        None => {
                            assert(ev[i as int].1 == Some(v@));
                            assert(stored_text(v@) is None);
                            let m = chars_of("value is not base64-encoded UTF-8 text");
                            return Err(RuleError::IoError { file: kvs[i].0.clone(), reason: string_of(m.as_slice()) });
                        },
                    }
                },
                None => {
                    assert(ev[i as int].1 is None);
                },
            }
        }
        i += 1;
    }
    assert(files_view(out@) + Seq::<(Seq<char>, Seq<char>)>::empty() =~= files_view(out@));
    Ok(out)
}

} // verus!
