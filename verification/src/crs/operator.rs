//! CRS operator evaluation: whether a transformed value matches an operator.
use vstd::prelude::*;

use crate::crs::tx::{
    assoc_get, lemma_assoc_end, lemma_assoc_hit, lemma_assoc_push, lemma_assoc_skip,
    lemma_assoc_update, TxState,
};
use crate::crs::types::{CrsOperator, OperatorView};
use crate::grl::functions::{detect_sqli, detect_xss, SQLI_PATTERN, XSS_PATTERN};
use crate::net::{parse_ip, spec_parse_ip, IpNetwork, IpValue};
use crate::pattern::{
    build_phrase_matcher, pattern_matches, phrase_is_match, phrases_match, regex_is_match,
    regex_matches, PhraseMatcher,
};
use crate::text::{
    chars_of, contains_chars, ends_with_chars, lower_string, parse_i64, seq_contains,
    spec_parse_i64, split_words, starts_with_chars, str_eq_chars, strip_prefix, strip_prefix_chars,
    strip_suffix, strip_suffix_chars, trim, trim_chars, string_of, unicode_lowercase, vecs_view,
    words,
};

verus! {

/// Phrase automata of `.data` files, by file name (a name is looked up at its
/// first occurrence).
#[derive(Debug)]
pub struct DataAutomata {
    entries: Vec<(String, PhraseMatcher)>,
}

pub open spec fn automata_entries(v: Seq<(String, PhraseMatcher)>) -> Seq<(Seq<char>, Seq<Seq<char>>)> {
    v.map_values(|e: (String, PhraseMatcher)| (e.0@, e.1@))
}

impl View for DataAutomata {
    type V = Seq<(Seq<char>, Seq<Seq<char>>)>;

    closed spec fn view(&self) -> Seq<(Seq<char>, Seq<Seq<char>>)> {
        automata_entries(self.entries@)
    }
}

impl DataAutomata {
    /// No files.
    pub fn new() -> (r: Self)
        ensures
            forall|f: Seq<char>| #[trigger] assoc_get(r@, f) is None,
    {
        let r = DataAutomata { entries: Vec::new() };
        assert(r@ =~= Seq::<(Seq<char>, Seq<Seq<char>>)>::empty());
        r
    }

    /// Build the automaton of a file's phrases and store it under `name`,
    /// replacing an earlier one of that name.
    pub fn insert(&mut self, name: String, phrases: Vec<String>)
        ensures
            forall|f: Seq<char>| #[trigger]
                assoc_get(final(self)@, f) == (if f == name@ {
                    Some(crate::crs::types::strings_view(phrases@))
                } else {
                    assoc_get(old(self)@, f)
                }),
    {
        let ghost kv = name@;
        let m = build_phrase_matcher(phrases);
        let ghost mv = m@;
        let ghost s = self@;
        match self.find(&name) {
            Some(i) => {
                proof {
                    assert forall|f: Seq<char>| #[trigger]
                        assoc_get(s.update(i as int, (kv, mv)), f) == (if f == kv {
                            Some(mv)
                        } else {
                            assoc_get(s, f)
                        }) by {
                        lemma_assoc_update(s, kv, mv, i as int, f);
                    }
                }
                self.entries.set(i, (name, m));
                assert(self@ =~= s.update(i as int, (kv, mv)));
            },
            None => {
                proof {
                    assert forall|f: Seq<char>| #[trigger]
                        assoc_get(s.push((kv, mv)), f) == (if f == kv {
                            Some(mv)
                        } else {
                            assoc_get(s, f)
                        }) by {
                        lemma_assoc_push(s, kv, mv, f);
                    }
                }
                self.entries.push((name, m));
                assert(self@ =~= s.push((kv, mv)));
            },
        }
    }

    fn find(&self, name: &String) -> (r: Option<usize>)
        ensures
            r is None ==> assoc_get(self@, name@) is None,
            r matches Some(i) ==> i < self.entries@.len() && assoc_get(self@, name@) == Some(
                self.entries@[i as int].1@,
            ) && self.entries@[i as int].0@ == name@ && forall|j: int|
                0 <= j < i ==> #[trigger] self.entries@[j].0@ != name@,
    {
        let ghost s = self@;
        let k = chars_of(name.as_str());
        let mut i: usize = 0;
        assert(s.skip(0) =~= s);
        while i < self.entries.len()
            invariant
                i <= self.entries@.len(),
                s == self@,
                k@ == name@,
                assoc_get(s, name@) == assoc_get(s.skip(i as int), name@),
                forall|j: int| 0 <= j < i ==> #[trigger] self.entries@[j].0@ != name@,
            decreases self.entries.len() - i,
        {
            if str_eq_chars(self.entries[i].0.as_str(), k.as_slice()) {
                proof {
                    lemma_assoc_hit(s, name@, i as int);
                }
                return Some(i);
            }
            proof {
                lemma_assoc_skip(s, name@, i as int);
            }
            i += 1;
        }
        proof {
            lemma_assoc_end(s, name@);
        }
        None
    }

    /// The automaton stored under `name`.
    pub fn get(&self, name: &String) -> (r: Option<&PhraseMatcher>)
        ensures
            match r {
                Some(m) => assoc_get(self@, name@) == Some(m@),
                None => assoc_get(self@, name@) is None,
            },
    {
        match self.find(name) {
            Some(i) => Some(&self.entries[i].1),
            None => None,
        }
    }
}

/// What `value.parse::<i64>()` compared with `n` gives (`false` when it is no number):
/// `rel` 0 `==`, 1 `<`, 2 `<=`, 3 `>`, 4 `>=`.
pub open spec fn spec_numeric(value: Seq<char>, rel: int, n: i64) -> bool {
    match spec_parse_i64(value) {
        Some(v) => if rel == 0 {
            v == n
        } else if rel == 1 {
            v < n
        } else if rel == 2 {
            v <= n
        } else if rel == 3 {
            v > n
        } else {
            v >= n
        },
        None => false,
    }
}

/// The TX variable named by a `%{tx.NAME}` reference.
pub open spec fn tx_reference(item: Seq<char>) -> Option<Seq<char>> {
    match strip_prefix(item, "%{tx."@) {
        Some(rest) => strip_suffix(rest, "}"@),
        None => None,
    }
}

/// Whether one `@within` item admits `value`: a `%{tx.NAME}` item admits each
/// whitespace-separated word of that TX string, any other item itself.
pub open spec fn within_item_admits(item: Seq<char>, value: Seq<char>, tx: TxState) -> bool {
    match tx_reference(item) {
        Some(var) => words(tx.spec_get_str(var)).contains(value),
        None => item == value,
    }
}

/// Whether the network holds the address (a malformed network holds nothing).
pub open spec fn net_holds(n: IpNetwork, ip: IpValue) -> bool {
    n.wf() && n.spec_contains(ip)
}

/// Whether some `@within` item admits `value`.
pub open spec fn within_admits_any(items: Seq<Seq<char>>, value: Seq<char>, tx: TxState) -> bool {
    exists|i: int| 0 <= i < items.len() && within_item_admits(#[trigger] items[i], value, tx)
}

/// Whether some network holds the address.
pub open spec fn nets_hold(nets: Seq<IpNetwork>, ip: IpValue) -> bool {
    exists|i: int| 0 <= i < nets.len() && net_holds(#[trigger] nets[i], ip)
}

/// Whether `value` matches the operator.
pub open spec fn spec_match_operator(
    op: OperatorView,
    value: Seq<char>,
    data: Seq<(Seq<char>, Seq<Seq<char>>)>,
    tx: TxState,
) -> bool {
    match op {
        OperatorView::Rx(p) => regex_matches(p, value),
        OperatorView::Pm(ps) => value.len() != 0 && phrases_match(ps, value),
        OperatorView::PmFromFile(f) => value.len() != 0 && match assoc_get(data, f) {
            Some(ps) => phrases_match(ps, value),
            None => false,
        },
        OperatorView::DetectSQLi => pattern_matches(SQLI_PATTERN@, value),
        OperatorView::DetectXSS => pattern_matches(XSS_PATTERN@, value),
        OperatorView::Eq(n) => spec_numeric(value, 0, n),
        OperatorView::Lt(n) => spec_numeric(value, 1, n),
        OperatorView::Le(n) => spec_numeric(value, 2, n),
        OperatorView::Gt(n) => spec_numeric(value, 3, n),
        OperatorView::Ge(n) => spec_numeric(value, 4, n),
        OperatorView::EqTxRef(v) => spec_numeric(value, 0, tx.spec_get(v)),
        OperatorView::LtTxRef(v) => spec_numeric(value, 1, tx.spec_get(v)),
        OperatorView::LeTxRef(v) => spec_numeric(value, 2, tx.spec_get(v)),
        OperatorView::GtTxRef(v) => spec_numeric(value, 3, tx.spec_get(v)),
        OperatorView::GeTxRef(v) => spec_numeric(value, 4, tx.spec_get(v)),
        OperatorView::Contains(s) => seq_contains(unicode_lowercase(value), s),
        OperatorView::Streq(s) => value == s,
        OperatorView::Within(items) => within_admits_any(items, value, tx),
        OperatorView::BeginsWith(p) => p.is_prefix_of(value),
        OperatorView::EndsWith(s) => s.is_suffix_of(value),
        OperatorView::IpMatch(nets) => spec_parse_ip(trim(value)) matches Some(ip) && nets_hold(
            nets,
            ip,
        ),
        OperatorView::ValidateUrlEncoding => false,
        OperatorView::ValidateUtf8Encoding => value.contains('\u{FFFD}'),
    }
}

fn numeric(value: &str, rel: u8, n: i64) -> (r: bool)
    requires
        rel <= 4,
    ensures
        r == spec_numeric(value@, rel as int, n),
{
    let cs = chars_of(value);
    match parse_i64(cs.as_slice()) {
        Some(v) => if rel == 0 {
            v == n
        } else if rel == 1 {
            v < n
        } else if rel == 2 {
            v <= n
        } else if rel == 3 {
            v > n
        } else {
            v >= n
        },
        None => false,
    }
}

fn tx_reference_of(item: &[char]) -> (r: Option<Vec<char>>)
    ensures
        match r {
            Some(v) => tx_reference(item@) == Some(v@),
            None => tx_reference(item@) is None,
        },
{
    let pre = chars_of("%{tx.");
    let suf = chars_of("}");
    match strip_prefix_chars(item, pre.as_slice()) {
        Some(rest) => strip_suffix_chars(rest.as_slice(), suf.as_slice()),
        None => None,
    }
}

fn within_admits(item: &String, value: &str, tx: &TxState) -> (r: bool)
    ensures
        r == within_item_admits(item@, value@, *tx),
{
    let ic = chars_of(item.as_str());
    match tx_reference_of(ic.as_slice()) {
        Some(var) => {
            let name = string_of(var.as_slice());
            let allowed = tx.get_str(name.as_str());
            let ac = chars_of(allowed.as_str());
            let ws = split_words(ac.as_slice());
            let ghost w = words(allowed@);
            let vc = chars_of(value);
            let mut i: usize = 0;
            let mut found = false;
            while !found && i < ws.len()
                invariant
                    i <= ws@.len(),
                    vecs_view(ws@) == w,
                    vc@ == value@,
                    !found ==> forall|j: int| 0 <= j < i ==> w[j] != value@,
                    found ==> w.contains(value@),
                decreases ws.len() - i,
            {
                assert(w[i as int] == ws@[i as int]@);
                if crate::text::chars_eq(ws[i].as_slice(), vc.as_slice()) {
                    assert(w[i as int] == value@);
                    found = true;
                }
                i += 1;
            }
            found
        },
        None => {
            let vc = chars_of(value);
            str_eq_chars(item.as_str(), vc.as_slice())
        },
    }
}

fn any_net_holds(nets: &Vec<IpNetwork>, ip: &IpValue) -> (r: bool)
    ensures
        r == nets_hold(nets@, *ip),
{
    let mut i: usize = 0;
    while i < nets.len()
        invariant
            i <= nets@.len(),
            forall|j: int| 0 <= j < i ==> !net_holds(#[trigger] nets@[j], *ip),
        decreases nets.len() - i,
    {
        let n = &nets[i];
        let width: u8 = if n.v6 {
            128
        } else {
            32
        };
        let well_formed = n.prefix <= width && (n.v6 || n.bits < 0x1_0000_0000);
        if well_formed && n.contains(ip) {
            return true;
        }
        i += 1;
    }
    false
}

/// Whether `value` matches the operator `op`.
pub fn match_operator(op: &CrsOperator, value: &str, data: &DataAutomata, tx: &TxState) -> (r:
    bool)
    ensures
        r == spec_match_operator(op@, value@, data@, *tx),
{
    match op {
        CrsOperator::Rx(re) => regex_is_match(re, value),
        CrsOperator::Pm(m) => {
            let vc = chars_of(value);
            if vc.len() == 0 {
                return false;
            }
            phrase_is_match(m, value)
        },
        CrsOperator::PmFromFile(file) => {
            let vc = chars_of(value);
            if vc.len() == 0 {
                return false;
            }
            match data.get(file) {
                Some(m) => phrase_is_match(m, value),
                None => false,
            }
        },
        CrsOperator::DetectSQLi => detect_sqli(value),
        CrsOperator::DetectXSS => detect_xss(value),
        CrsOperator::Eq(n) => numeric(value, 0, *n),
        CrsOperator::Lt(n) => numeric(value, 1, *n),
        CrsOperator::Le(n) => numeric(value, 2, *n),
        CrsOperator::Gt(n) => numeric(value, 3, *n),
        CrsOperator::Ge(n) => numeric(value, 4, *n),
        CrsOperator::EqTxRef(v) => numeric(value, 0, tx.get(v.as_str())),
        CrsOperator::LtTxRef(v) => numeric(value, 1, tx.get(v.as_str())),
        CrsOperator::LeTxRef(v) => numeric(value, 2, tx.get(v.as_str())),
        CrsOperator::GtTxRef(v) => numeric(value, 3, tx.get(v.as_str())),
        CrsOperator::GeTxRef(v) => numeric(value, 4, tx.get(v.as_str())),
        CrsOperator::Contains(s) => {
            let l = lower_string(value);
            let lc = chars_of(l.as_str());
            let sc = chars_of(s.as_str());
            contains_chars(lc.as_slice(), sc.as_slice())
        },
        CrsOperator::Streq(s) => {
            let sc = chars_of(s.as_str());
            str_eq_chars(value, sc.as_slice())
        },
        CrsOperator::Within(items) => {
            let ghost iv = crate::crs::types::strings_view(items@);
            let mut i: usize = 0;
            let mut found = false;
            while !found && i < items.len()
                invariant
                    i <= items@.len(),
                    iv == crate::crs::types::strings_view(items@),
                    !found ==> forall|j: int| 0 <= j < i ==> !within_item_admits(#[trigger] iv[j], value@, *tx),
                    found ==> within_admits_any(iv, value@, *tx),
                decreases items.len() - i,
            {
                assert(iv[i as int] == items@[i as int]@);
                if within_admits(&items[i], value, tx) {
                    found = true;
                }
                i += 1;
            }
            found
        },
        CrsOperator::BeginsWith(p) => {
            let vc = chars_of(value);
            let pc = chars_of(p.as_str());
            starts_with_chars(vc.as_slice(), pc.as_slice())
        },
        CrsOperator::EndsWith(s) => {
            let vc = chars_of(value);
            let sc = chars_of(s.as_str());
            ends_with_chars(vc.as_slice(), sc.as_slice())
        },
        CrsOperator::IpMatch(nets) => {
            let vc = chars_of(value);
            let t = trim_chars(vc.as_slice());
            let ts = string_of(t.as_slice());
            match parse_ip(ts.as_str()) {
                Some(ip) => any_net_holds(nets, &ip),
                None => false,
            }
        },
        CrsOperator::ValidateUrlEncoding => false,
        CrsOperator::ValidateUtf8Encoding => {
            let vc = chars_of(value);
            let mut i: usize = 0;
            let mut bad = false;
            while !bad && i < vc.len()
                invariant
                    i <= vc@.len(),
                    vc@ == value@,
                    !bad ==> forall|j: int| 0 <= j < i ==> vc@[j] != '\u{FFFD}',
                    bad ==> value@.contains('\u{FFFD}'),
                decreases vc.len() - i,
            {
                if vc[i] == '\u{FFFD}' {
                    assert(value@[i as int] == '\u{FFFD}');
                    bad = true;
                }
                i += 1;
            }
            bad
        },
    }
}

} // verus!
