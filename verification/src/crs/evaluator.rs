//! The loaded CRS rule set, run by the `zentinel-modsec` engine, and the
//! accounting of what it reports.
use std::collections::HashMap;
use vstd::prelude::*;

use crate::context::RequestContext;
use crate::crs::parser::{parse_conf, spec_parse_conf};
use crate::crs::target::{build_uri, headers_named, spec_uri};
use crate::crs::types::{items_view, strings_view, CrsResult, RuleItem, RuleItemView, SecRuleView};
use crate::pattern::{
    compile_regex, regex_compiles, regex_first_group_each, regex_first_groups, regex_split,
    regex_split_pieces, CompiledRegex,
};
use crate::text::{
    chars_of, parse_i64, parse_uint, push_str, spec_parse_i64, spec_parse_uint, str_eq_chars,
    string_of, unicode_lowercase,
};

verus! {

#[verifier::external_type_specification]
#[verifier::external_body]
pub struct ExModSecurity(zentinel_modsec::ModSecurity);

#[verifier::external_type_specification]
#[verifier::external_body]
pub struct ExTransaction(zentinel_modsec::Transaction);

// ─── the engine ─────────────────────────────────────────────────────────────

/// `ModSecurity::from_string`: the engine compiled from `source`, handed back
/// with the source itself, or `None` when the engine refuses the source.  Which
/// of the two comes back is not stated: compiling `@pmFromFile` and `Include`
/// reads files from disk.
#[verifier::external_body]
fn modsec_from_string(source: String) -> (r: Option<(zentinel_modsec::ModSecurity, String)>)
    ensures
        r matches Some(p) ==> p.1@ == source@,
{
    match zentinel_modsec::ModSecurity::from_string(source.as_str()) {
        Ok(m) => Some((m, source)),
        Err(_) => None,
    }
}

/// The engine a transaction runs: `Transaction::new` keeps the engine's compiled
/// rule set and default status, and no request phase replaces them.
pub uninterp spec fn tx_engine(tx: zentinel_modsec::Transaction) -> zentinel_modsec::ModSecurity;

/// The request line and body a transaction holds: the `uri`, `method`,
/// `protocol` and `body` fields of its `RequestData`.
pub uninterp spec fn tx_request(tx: zentinel_modsec::Transaction) -> (Seq<char>, Seq<char>, Seq<char>, Seq<u8>);

/// The values a transaction holds under a request header key (its `RequestData`
/// headers collection, keyed by the lowercased name), in the order added.
pub uninterp spec fn tx_request_header(tx: zentinel_modsec::Transaction, key: Seq<char>) -> Seq<Seq<char>>;

/// What `Transaction::anomaly_score` returns.
pub uninterp spec fn tx_anomaly_score(tx: zentinel_modsec::Transaction) -> i32;

/// What `Collection::get` returns for a key of the transaction's TX collection.
pub uninterp spec fn tx_variable(tx: zentinel_modsec::Transaction, key: Seq<char>) -> Option<Seq<Seq<char>>>;

/// What `Transaction::matched_rules` returns.
pub uninterp spec fn tx_matched_rules(tx: zentinel_modsec::Transaction) -> Seq<Seq<char>>;

/// The request data of `b` is that of `a`.
pub open spec fn request_kept(a: zentinel_modsec::Transaction, b: zentinel_modsec::Transaction) -> bool {
    &&& tx_request(b) == tx_request(a)
    &&& forall|k: Seq<char>| #[trigger] tx_request_header(b, k) == tx_request_header(a, k)
}

/// `ModSecurity::new_transaction`: a transaction of the engine `m` whose request
/// data is empty.
#[verifier::external_body]
fn new_transaction(m: &zentinel_modsec::ModSecurity) -> (r: zentinel_modsec::Transaction)
    ensures
        tx_engine(r) == *m,
        tx_request(r) == (Seq::<char>::empty(), Seq::<char>::empty(), Seq::<char>::empty(), Seq::<u8>::empty()),
        forall|k: Seq<char>| #[trigger] tx_request_header(r, k) == Seq::<Seq<char>>::empty(),
{
    m.new_transaction()
}

/// `Transaction::process_uri`: records the URI, method and protocol, and always
/// succeeds (`true`).
#[verifier::external_body]
fn process_uri(tx: &mut zentinel_modsec::Transaction, uri: &str, method: &str, protocol: &str) -> (r: bool)
    ensures
        tx_engine(*final(tx)) == tx_engine(*old(tx)),
        r,
        tx_request(*final(tx)) == (uri@, method@, protocol@, tx_request(*old(tx)).3),
        forall|k: Seq<char>| #[trigger] tx_request_header(*final(tx), k) == tx_request_header(*old(tx), k),
{
    tx.process_uri(uri, method, protocol).is_ok()
}

/// `Transaction::add_request_header`: adds the value under the lowercased name,
/// and always succeeds (`true`).
#[verifier::external_body]
fn add_request_header(tx: &mut zentinel_modsec::Transaction, name: &str, value: &str) -> (r: bool)
    ensures
        tx_engine(*final(tx)) == tx_engine(*old(tx)),
        r,
        tx_request(*final(tx)) == tx_request(*old(tx)),
        forall|k: Seq<char>| #[trigger]
            tx_request_header(*final(tx), k) == if k == unicode_lowercase(name@) {
                tx_request_header(*old(tx), k).push(value@)
            } else {
                tx_request_header(*old(tx), k)
            },
{
    tx.add_request_header(name, value).is_ok()
}

/// `Transaction::process_request_headers` (phase 1); `true` when it succeeded.
/// The request data is left as it was.
#[verifier::external_body]
fn process_request_headers(tx: &mut zentinel_modsec::Transaction) -> (r: bool)
    ensures
        tx_engine(*final(tx)) == tx_engine(*old(tx)),
        request_kept(*old(tx), *final(tx)),
{
    tx.process_request_headers().is_ok()
}

/// `Transaction::append_request_body`: appends to the body, and always succeeds
/// (`true`).
#[verifier::external_body]
fn append_request_body(tx: &mut zentinel_modsec::Transaction, data: &[u8]) -> (r: bool)
    ensures
        tx_engine(*final(tx)) == tx_engine(*old(tx)),
        r,
        tx_request(*final(tx)) == (
            tx_request(*old(tx)).0,
            tx_request(*old(tx)).1,
            tx_request(*old(tx)).2,
            tx_request(*old(tx)).3 + data@,
        ),
        forall|k: Seq<char>| #[trigger] tx_request_header(*final(tx), k) == tx_request_header(*old(tx), k),
{
    tx.append_request_body(data).is_ok()
}

/// `Transaction::process_request_body` (phase 2); `true` when it succeeded.
/// The request data is left as it was.
#[verifier::external_body]
fn process_request_body(tx: &mut zentinel_modsec::Transaction) -> (r: bool)
    ensures
        tx_engine(*final(tx)) == tx_engine(*old(tx)),
        request_kept(*old(tx), *final(tx)),
{
    tx.process_request_body().is_ok()
}

/// `Transaction::anomaly_score`: the inbound anomaly score.
#[verifier::external_body]
fn anomaly_score(tx: &zentinel_modsec::Transaction) -> (r: i32)
    ensures
        r == tx_anomaly_score(*tx),
{
    tx.anomaly_score()
}

/// `Collection::get` on the transaction's TX collection, as owned strings.
#[verifier::external_body]
fn tx_values(tx: &zentinel_modsec::Transaction, key: &str) -> (r: Option<Vec<String>>)
    ensures
        opt_strs(r) == tx_variable(*tx, key@),
{
    zentinel_modsec::variables::Collection::get(tx.tx(), key).map(
        |vs| vs.iter().map(|v| v.to_string()).collect(),
    )
}

/// `Transaction::matched_rules`: the ids of the rules that fired, as text.
#[verifier::external_body]
fn matched_rules(tx: &zentinel_modsec::Transaction) -> (r: Vec<String>)
    ensures
        tags_view(r@) == tx_matched_rules(*tx),
{
    tx.matched_rules().to_vec()
}

// ─── rule tags ──────────────────────────────────────────────────────────────

pub open spec fn tags_view(v: Seq<String>) -> Seq<Seq<char>> {
    v.map_values(|s: String| s@)
}

pub open spec fn opt_strs(v: Option<Vec<String>>) -> Option<Seq<Seq<char>>> {
    match v {
        Some(v) => Some(tags_view(v@)),
        None => None,
    }
}

/// The tags of the rules of a chain, head first.
pub open spec fn chain_tags(head: SecRuleView, members: Seq<SecRuleView>) -> Seq<Seq<char>>
    decreases members.len(),
{
    if members.len() == 0 {
        head.actions.tags
    } else {
        chain_tags(head, members.drop_last()) + members.last().actions.tags
    }
}

/// The tag entry an item contributes: its id and tags, when it has tags.
pub open spec fn item_tags(item: RuleItemView) -> Option<(u32, Seq<Seq<char>>)> {
    match item {
        RuleItemView::Rule(r) => if r.actions.tags.len() > 0 {
            Some((r.id, r.actions.tags))
        } else {
            None
        },
        RuleItemView::Chain(h, ms) => if chain_tags(h, ms).len() > 0 {
            Some((h.id, chain_tags(h, ms)))
        } else {
            None
        },
        RuleItemView::Marker(_) => None,
    }
}

/// The tag entries of the items, in order.
pub open spec fn items_tags(items: Seq<RuleItemView>) -> Seq<(u32, Seq<Seq<char>>)>
    decreases items.len(),
{
    if items.len() == 0 {
        seq![]
    } else {
        items_tags(items.drop_last()) + match item_tags(items.last()) {
            Some(e) => seq![e],
            None => seq![],
        }
    }
}

/// The table after recording the entries in order: a later entry of an id
/// replaces an earlier one.
pub open spec fn with_entries(
    table: Map<u32, Seq<Seq<char>>>,
    entries: Seq<(u32, Seq<Seq<char>>)>,
) -> Map<u32, Seq<Seq<char>>>
    decreases entries.len(),
{
    if entries.len() == 0 {
        table
    } else {
        with_entries(table, entries.drop_last()).insert(entries.last().0, entries.last().1)
    }
}

/// The tags recorded for a rule id.
pub open spec fn tags_of(table: Map<u32, Seq<Seq<char>>>, id: u32) -> Option<Seq<Seq<char>>> {
    if table.contains_key(id) {
        Some(table[id])
    } else {
        None
    }
}

pub open spec fn table_view(m: Map<u32, Vec<String>>) -> Map<u32, Seq<Seq<char>>> {
    m.map_values(|v: Vec<String>| tags_view(v@))
}

proof fn lemma_with_entries_append(
    table: Map<u32, Seq<Seq<char>>>,
    a: Seq<(u32, Seq<Seq<char>>)>,
    b: Seq<(u32, Seq<Seq<char>>)>,
)
    ensures
        with_entries(table, a + b) == with_entries(with_entries(table, a), b),
    decreases b.len(),
{
    if b.len() == 0 {
        assert(a + b =~= a);
    } else {
        assert((a + b).drop_last() =~= a + b.drop_last());
        assert((a + b).last() == b.last());
        lemma_with_entries_append(table, a, b.drop_last());
    }
}

fn copy_strings(v: &Vec<String>) -> (r: Vec<String>)
    ensures
        tags_view(r@) == tags_view(v@),
{
    let mut out: Vec<String> = Vec::new();
    let mut i: usize = 0;
    while i < v.len()
        invariant
            i <= v@.len(),
            tags_view(out@) == tags_view(v@.take(i as int)),
        decreases v.len() - i,
    {
        let ghost o0 = tags_view(out@);
        let x = v[i].clone();
        assert(x@ == v@[i as int]@);
        out.push(x);
        assert(tags_view(out@) =~= o0.push(v@[i as int]@));
        assert(v@.take(i + 1) =~= v@.take(i as int).push(v@[i as int]));
        i += 1;
        assert(tags_view(out@) =~= tags_view(v@.take(i as int)));
    }
    assert(v@.take(v@.len() as int) =~= v@);
    out
}

/// Record the tag entries of `items` in `table`.
fn collect_rule_tags(items: &Vec<RuleItem>, table: &mut HashMap<u32, Vec<String>>)
    ensures
        table_view(final(table)@) == with_entries(table_view(old(table)@), items_tags(items_view(items@))),
{
    let ghost t0 = table_view(table@);
    let ghost iv = items_view(items@);
    let mut i: usize = 0;
    assert(iv.take(0) =~= Seq::<RuleItemView>::empty());
    while i < items.len()
        invariant
            i <= items@.len(),
            iv == items_view(items@),
            table_view(table@) == with_entries(t0, items_tags(iv.take(i as int))),
        decreases items.len() - i,
    {
        let ghost before = table_view(table@);
        let ghost done = items_tags(iv.take(i as int));
        assert(iv[i as int] == items@[i as int]@);
        assert(iv.take(i + 1).drop_last() =~= iv.take(i as int));
        assert(iv.take(i + 1).last() == iv[i as int]);
        match &items[i] {
            RuleItem::Rule(r) => {
                if r.actions.tags.len() > 0 {
                    let tags = copy_strings(&r.actions.tags);
                    let ghost e = (r.id, r@.actions.tags);
                    let _ = table.insert(r.id, tags);
                    assert(table_view(table@) =~= before.insert(r.id, r@.actions.tags));
                    assert((done + seq![e]).drop_last() =~= done);
                }
            },
            RuleItem::Chain(c) => {
                let mut tags = copy_strings(&c.head.actions.tags);
                let ghost ms = crate::crs::types::rules_view(c.members@);
                let mut k: usize = 0;
                assert(ms.take(0) =~= Seq::<SecRuleView>::empty());
                while k < c.members.len()
                    invariant
                        k <= c.members@.len(),
                        ms == crate::crs::types::rules_view(c.members@),
                        tags_view(tags@) == chain_tags(c.head@, ms.take(k as int)),
                    decreases c.members.len() - k,
                {
                    let more = copy_strings(&c.members[k].actions.tags);
                    let ghost t1 = tags_view(tags@);
                    let ghost mv = tags_view(more@);
                    let mut more = more;
                    tags.append(&mut more);
                    assert(tags_view(tags@) =~= t1 + mv);
                    assert(ms.take(k + 1).drop_last() =~= ms.take(k as int));
                    assert(ms[k as int] == c.members@[k as int]@);
                    k += 1;
                }
                assert(ms.take(c.members@.len() as int) =~= ms);
                if tags.len() > 0 {
                    let ghost tv = tags_view(tags@);
                    let ghost e = (c.head@.id, tv);
                    let _ = table.insert(c.head.id, tags);
                    assert(table_view(table@) =~= before.insert(c.head@.id, tv));
                    assert((done + seq![e]).drop_last() =~= done);
                }
            },
            RuleItem::Marker(_) => {},
        }
        assert(done + Seq::<(u32, Seq<Seq<char>>)>::empty() =~= done);
        i += 1;
    }
    assert(iv.take(items@.len() as int) =~= iv);
}

fn find_tags<'a>(table: &'a HashMap<u32, Vec<String>>, id: u32) -> (r: Option<&'a Vec<String>>)
    ensures
        match r {
            Some(v) => tags_of(table_view(table@), id) == Some(tags_view(v@)),
            None => tags_of(table_view(table@), id) is None,
        },
{
    table.get(&id)
}

// ─── accounting ─────────────────────────────────────────────────────────────

/// The number a TX variable reports: its first value read as an integer, or 0.
pub open spec fn tx_number(values: Option<Seq<Seq<char>>>) -> i64 {
    match values {
        Some(vs) => if vs.len() > 0 {
            match spec_parse_i64(vs[0]) {
                Some(n) => n,
                None => 0,
            }
        } else {
            0
        },
        None => 0,
    }
}

fn tx_number_of(values: Option<Vec<String>>) -> (r: i64)
    ensures
        r == tx_number(opt_strs(values)),
{
    match values {
        Some(vs) => if vs.len() > 0 {
            let c = chars_of(vs[0].as_str());
            match parse_i64(c.as_slice()) {
                Some(n) => n,
                None => 0,
            }
        } else {
            0
        },
        None => 0,
    }
}

/// The rule ids among the matched texts that read as `u32`, in order.
pub open spec fn matched_ids(matched: Seq<Seq<char>>) -> Seq<u32>
    decreases matched.len(),
{
    if matched.len() == 0 {
        seq![]
    } else {
        matched_ids(matched.drop_last()) + match spec_parse_uint(matched.last(), u32::MAX as int) {
            Some(n) => seq![n as u32],
            None => seq![],
        }
    }
}

/// Whether `t` is a tag of one of the rules.
pub open spec fn tag_of_any(table: Map<u32, Seq<Seq<char>>>, ids: Seq<u32>, t: Seq<char>) -> bool {
    exists|i: int|
        0 <= i < ids.len() && (tags_of(table, #[trigger] ids[i]) matches Some(ts) && ts.contains(t))
}

/// The ids and tags of the rules that fired: every matched id that reads as a
/// `u32`, in order, and the set of their tags, each once.
#[verifier::loop_isolation(false)]
fn account_matches(matched: &Vec<String>, table: &HashMap<u32, Vec<String>>) -> (r: (Vec<u32>, Vec<String>))
    ensures
        r.0@ == matched_ids(tags_view(matched@)),
        forall|t: Seq<char>| tags_view(r.1@).contains(t) <==> tag_of_any(table_view(table@), r.0@, t),
        forall|i: int, j: int| 0 <= i < j < r.1@.len() ==> r.1@[i]@ != r.1@[j]@,
{
    let ghost mv = tags_view(matched@);
    let ghost tb = table_view(table@);
    let mut ids: Vec<u32> = Vec::new();
    let mut tags: Vec<String> = Vec::new();
    let mut i: usize = 0;
    while i < matched.len()
        invariant
            i <= matched@.len(),
            mv == tags_view(matched@),
            tb == table_view(table@),
            ids@ == matched_ids(mv.take(i as int)),
            forall|t: Seq<char>| tags_view(tags@).contains(t) <==> tag_of_any(tb, ids@, t),
            forall|a: int, b: int| 0 <= a < b < tags@.len() ==> tags@[a]@ != tags@[b]@,
        decreases matched.len() - i,
    {
        let c = chars_of(matched[i].as_str());
        assert(mv.take(i + 1).drop_last() =~= mv.take(i as int));
        assert(mv.take(i + 1).last() == matched@[i as int]@);
        match parse_uint(c.as_slice(), u32::MAX as u64) {
            Some(n) => {
                let id = n as u32;
                let ghost ids0 = ids@;
                ids.push(id);
                assert(ids@ =~= matched_ids(mv.take(i + 1)));
                match find_tags(table, id) {
                    Some(ts) => {
                        let mut k: usize = 0;
                        while k < ts.len()
                            invariant
                                k <= ts@.len(),
                                ids@ == ids0.push(id),
                                tags_of(tb, id) == Some(tags_view(ts@)),
                                forall|t: Seq<char>| tags_view(tags@).contains(t) <==> (tag_of_any(tb, ids0, t) || tags_view(ts@.take(k as int)).contains(t)),
                                forall|a: int, b: int| 0 <= a < b < tags@.len() ==> tags@[a]@ != tags@[b]@,
                            decreases ts.len() - k,
                        {
                            let tc = chars_of(ts[k].as_str());
                            let mut present = false;
                            let mut j: usize = 0;
                            while j < tags.len()
                                invariant
                                    j <= tags@.len(),
                                    tc@ == ts@[k as int]@,
                                    present ==> tags_view(tags@).contains(tc@),
                                    !present ==> forall|q: int| 0 <= q < j ==> tags@[q]@ != tc@,
                                decreases tags.len() - j,
                            {
                                if str_eq_chars(tags[j].as_str(), tc.as_slice()) {
                                    assert(tags_view(tags@)[j as int] == tc@);
                                    present = true;
                                }
                                j += 1;
                            }
                            let ghost g0 = tags_view(tags@);
                            let ghost tk = tags_view(ts@.take(k as int));
                            let ghost was_present = present;
                            assert(forall|t: Seq<char>| g0.contains(t) <==> (tag_of_any(tb, ids0, t) || tk.contains(t)));
                            assert(was_present ==> g0.contains(tc@));
                            assert(tags_view(ts@.take(k + 1)) =~= tk.push(tc@));
                            proof {
                                assert forall|t: Seq<char>| #[trigger] tk.push(tc@).contains(t) <==> (tk.contains(t) || t == tc@) by {
                                    lemma_push_contains(tk, tc@, t);
                                }
                            }
                            if !present {
                                let x = ts[k].clone();
                                assert(x@ == tc@);
                                tags.push(x);
                                assert(tags_view(tags@) =~= g0.push(tc@));
                                assert forall|a: int, b: int| 0 <= a < b < tags@.len() implies tags@[a]@ != tags@[b]@ by {
                                    if b == tags@.len() - 1 {
                                        assert(tags@[b]@ == tc@);
                                    }
                                }
                            }
                            proof {
                                assert(was_present ==> tags_view(tags@) == g0);
                                assert(!was_present ==> tags_view(tags@) == g0.push(tc@));
                                assert forall|t: Seq<char>| tags_view(tags@).contains(t) <==> (tag_of_any(tb, ids0, t) || tk.push(tc@).contains(t)) by {
                                    lemma_push_contains(tk, tc@, t);
                                    lemma_push_contains(g0, tc@, t);
                                    assert(g0.contains(t) <==> (tag_of_any(tb, ids0, t) || tk.contains(t)));
                                }
                            }
                            let ghost tk1 = tk.push(tc@);
                            k += 1;
                            assert(tags_view(ts@.take(k as int)) == tk1);
                            assert(forall|t: Seq<char>| tags_view(tags@).contains(t) <==> (tag_of_any(tb, ids0, t) || tk1.contains(t)));
                            assert(forall|t: Seq<char>| tags_view(tags@).contains(t) <==> (tag_of_any(tb, ids0, t) || tags_view(ts@.take(k as int)).contains(t)));
                        }
                        assert(ts@.take(ts@.len() as int) =~= ts@);
                        assert forall|t: Seq<char>| tags_view(tags@).contains(t) <==> tag_of_any(tb, ids@, t) by {
                            if tag_of_any(tb, ids@, t) {
                                let q = choose|q: int| 0 <= q < ids@.len() && (tags_of(tb, #[trigger] ids@[q]) matches Some(tt) && tt.contains(t));
                                if q < ids0.len() {
                                    assert(ids0[q] == ids@[q]);
                                }
                            }
                            if tag_of_any(tb, ids0, t) {
                                let q = choose|q: int| 0 <= q < ids0.len() && (tags_of(tb, #[trigger] ids0[q]) matches Some(tt) && tt.contains(t));
                                assert(ids@[q] == ids0[q]);
                            }
                            if tags_view(ts@).contains(t) {
                                assert(ids@[ids0.len() as int] == id);
                            }
                        }
                    },
                    None => {
                        assert forall|t: Seq<char>| tags_view(tags@).contains(t) <==> tag_of_any(tb, ids@, t) by {
                            if tag_of_any(tb, ids@, t) {
                                let q = choose|q: int| 0 <= q < ids@.len() && (tags_of(tb, #[trigger] ids@[q]) matches Some(tt) && tt.contains(t));
                                if q < ids0.len() {
                                    assert(ids0[q] == ids@[q]);
                                }
                            }
                            if tag_of_any(tb, ids0, t) {
                                let q = choose|q: int| 0 <= q < ids0.len() && (tags_of(tb, #[trigger] ids0[q]) matches Some(tt) && tt.contains(t));
                                assert(ids@[q] == ids0[q]);
                            }
                        }
                    },
                }
            },
            None => {
                assert(ids@ =~= matched_ids(mv.take(i + 1)));
            },
        }
        i += 1;
    }
    assert(mv.take(matched@.len() as int) =~= mv);
    (ids, tags)
}

proof fn lemma_push_contains<A>(s: Seq<A>, x: A, t: A)
    ensures
        s.push(x).contains(t) <==> (s.contains(t) || t == x),
{
    if s.push(x).contains(t) {
        let i = choose|i: int| 0 <= i < s.push(x).len() && s.push(x)[i] == t;
        if i < s.len() {
            assert(s[i] == t);
        }
    }
    if s.contains(t) {
        let i = choose|i: int| 0 <= i < s.len() && s[i] == t;
        assert(s.push(x)[i] == t);
    }
    if t == x {
        assert(s.push(x)[s.len() as int] == t);
    }
}

/// A result with no score and no match.
pub fn empty_result() -> (r: CrsResult)
    ensures
        r.inbound_score == 0 && r.sql_injection_score == 0 && r.xss_score == 0 && r.lfi_score == 0
            && r.rce_score == 0 && r.matched_tags@.len() == 0 && r.matched_rule_ids@.len() == 0,
{
    CrsResult {
        inbound_score: 0,
        sql_injection_score: 0,
        xss_score: 0,
        lfi_score: 0,
        rce_score: 0,
        matched_tags: Vec::new(),
        matched_rule_ids: Vec::new(),
    }
}

/// `r` holds no score and no match.
pub open spec fn is_empty_result(r: CrsResult) -> bool {
    &&& r.inbound_score == 0
    &&& r.sql_injection_score == 0
    &&& r.xss_score == 0
    &&& r.lfi_score == 0
    &&& r.rce_score == 0
    &&& r.matched_tags@.len() == 0
    &&& r.matched_rule_ids@.len() == 0
}

/// `r` accounts for what the engine reported: the inbound score, the number
/// each category's TX variable holds, every matched id that reads as a `u32`
/// (in order), and the tags of those rules, each once.
pub open spec fn accounted(
    r: CrsResult,
    table: Map<u32, Seq<Seq<char>>>,
    score: i32,
    sqli: Option<Seq<Seq<char>>>,
    xss: Option<Seq<Seq<char>>>,
    lfi: Option<Seq<Seq<char>>>,
    rce: Option<Seq<Seq<char>>>,
    matched: Seq<Seq<char>>,
) -> bool {
    &&& r.inbound_score == score as i64
    &&& r.sql_injection_score == tx_number(sqli)
    &&& r.xss_score == tx_number(xss)
    &&& r.lfi_score == tx_number(lfi)
    &&& r.rce_score == tx_number(rce)
    &&& r.matched_rule_ids@ == matched_ids(matched)
    &&& forall|t: Seq<char>|
        #[trigger] tags_view(r.matched_tags@).contains(t) <==> tag_of_any(table, r.matched_rule_ids@, t)
    &&& forall|i: int, j: int|
        0 <= i < j < r.matched_tags@.len() ==> r.matched_tags@[i]@ != r.matched_tags@[j]@
}

/// `r` accounts for what the transaction `t` reports.
pub open spec fn reported(r: CrsResult, table: Map<u32, Seq<Seq<char>>>, t: zentinel_modsec::Transaction) -> bool {
    accounted(
        r,
        table,
        tx_anomaly_score(t),
        tx_variable(t, "sql_injection_score"@),
        tx_variable(t, "xss_score"@),
        tx_variable(t, "lfi_score"@),
        tx_variable(t, "rce_score"@),
        tx_matched_rules(t),
    )
}

/// The transaction `t` was handed the head of the request: the URI with its
/// query string, the method, `HTTP/1.1` and every header (in order, under its
/// lowercased name), and no body yet.
pub open spec fn handed_head(t: zentinel_modsec::Transaction, ctx: RequestContext) -> bool {
    &&& tx_request(t) == (spec_uri(ctx), ctx.method@, "HTTP/1.1"@, Seq::<u8>::empty())
    &&& forall|k: Seq<char>| #[trigger] tx_request_header(t, k) == headers_named(ctx.headers@, k)
}

/// `after` holds the request of `before` with the body of `ctx` appended.
pub open spec fn body_added(
    before: zentinel_modsec::Transaction,
    after: zentinel_modsec::Transaction,
    ctx: RequestContext,
) -> bool {
    &&& tx_request(after) == (
        tx_request(before).0,
        tx_request(before).1,
        tx_request(before).2,
        tx_request(before).3 + match ctx.body {
            Some(b) => b@,
            None => Seq::<u8>::empty(),
        },
    )
    &&& forall|k: Seq<char>| #[trigger] tx_request_header(after, k) == tx_request_header(before, k)
}

/// The transaction `t` was handed the request: the URI with its query string,
/// the method, `HTTP/1.1`, every header (in order, under its lowercased name)
/// and the body.
pub open spec fn handed(t: zentinel_modsec::Transaction, ctx: RequestContext) -> bool {
    &&& tx_request(t) == (
        spec_uri(ctx),
        ctx.method@,
        "HTTP/1.1"@,
        match ctx.body {
            Some(b) => b@,
            None => Seq::<u8>::empty(),
        },
    )
    &&& forall|k: Seq<char>| #[trigger] tx_request_header(t, k) == headers_named(ctx.headers@, k)
}

// ─── the rule set ───────────────────────────────────────────────────────────

/// The CRS rule set: the compiled engine, the rule text it was compiled from,
/// the tags of each rule, and the number of rule items the sources held.
#[derive(Debug)]
pub struct CrsRuleset {
    modsec: zentinel_modsec::ModSecurity,
    source: String,
    rule_tags: HashMap<u32, Vec<String>>,
    rule_count: usize,
}

/// The pattern of an `@pmFromFile` operator naming a `.data` file.
pub open spec fn pm_file_pattern() -> Seq<char> {
    "@pmFromFile\\s+([A-Za-z0-9._/-]+\\.data)"@
}

/// The path of a data file inside the data directory (`Path::join`: an absolute
/// file name stands for itself).
pub open spec fn data_file_path(data_dir: Seq<char>, file: Seq<char>) -> Seq<char> {
    if file.len() > 0 && file[0] == '/' {
        file
    } else if data_dir.len() == 0 {
        file
    } else if data_dir.last() == '/' {
        data_dir + file
    } else {
        data_dir + seq!['/'] + file
    }
}

/// The path of a data file inside the data directory.
pub fn data_path(data_dir: &str, file: &str) -> (r: String)
    ensures
        r@ == data_file_path(data_dir@, file@),
{
    let fc = chars_of(file);
    if fc.len() > 0 && fc[0] == '/' {
        return string_of(fc.as_slice());
    }
    let mut out = chars_of(data_dir);
    if out.len() > 0 && out[out.len() - 1] != '/' {
        out.push('/');
    }
    push_str(&mut out, file);
    string_of(out.as_slice())
}

/// The first `k` matches replaced: the text before the first match, then for
/// each match `@pmFromFile ` and the data file's path, and the text after it.
pub open spec fn pm_joined(
    pieces: Seq<Seq<char>>,
    names: Seq<Seq<char>>,
    data_dir: Seq<char>,
    k: nat,
) -> Seq<char>
    decreases k,
{
    if k == 0 {
        pieces[0]
    } else {
        pm_joined(pieces, names, data_dir, (k - 1) as nat) + "@pmFromFile "@ + data_file_path(
            data_dir,
            names[k - 1],
        ) + pieces[k as int]
    }
}

/// The source with every `@pmFromFile <name>.data` naming the file inside
/// `data_dir`.
pub open spec fn pm_rewritten(source: Seq<char>, data_dir: Seq<char>) -> Seq<char> {
    let names = regex_first_groups(pm_file_pattern(), source);
    pm_joined(regex_split_pieces(pm_file_pattern(), source), names, data_dir, names.len())
}

/// Rewrite every `@pmFromFile <name>.data` of the source to name the file inside
/// `data_dir`; `None` only if the pattern does not compile.
pub fn rewrite_pm_from_file_paths(source: &str, data_dir: &str) -> (r: Option<String>)
    ensures
        r is Some <==> regex_compiles(pm_file_pattern()),
        r matches Some(t) ==> t@ == pm_rewritten(source@, data_dir@),
{
    match compile_regex("@pmFromFile\\s+([A-Za-z0-9._/-]+\\.data)") {
        Some(re) => Some(rewrite_with(&re, source, data_dir)),
        None => None,
    }
}

fn rewrite_with(re: &CompiledRegex, source: &str, data_dir: &str) -> (r: String)
    requires
        re@ == pm_file_pattern(),
    ensures
        r@ == pm_rewritten(source@, data_dir@),
{
    let names = regex_first_group_each(re, source);
    let pieces = regex_split(re, source);
    let ghost pv = strings_view(pieces@);
    let ghost nv = strings_view(names@);
    assert(pv[0] == pieces@[0]@);
    let mut out = chars_of(pieces[0].as_str());
    let mut i: usize = 0;
    while i < names.len()
        invariant
            i <= names@.len(),
            pieces@.len() == names@.len() + 1,
            pv == strings_view(pieces@),
            nv == strings_view(names@),
            out@ == pm_joined(pv, nv, data_dir@, i as nat),
        decreases names.len() - i,
    {
        let ghost o0 = out@;
        push_str(&mut out, "@pmFromFile ");
        let p = data_path(data_dir, names[i].as_str());
        push_str(&mut out, p.as_str());
        push_str(&mut out, pieces[i + 1].as_str());
        assert(nv[i as int] == names@[i as int]@);
        assert(pv[i + 1] == pieces@[i + 1]@);
        assert(out@ =~= o0 + "@pmFromFile "@ + data_file_path(data_dir@, nv[i as int]) + pv[i + 1]);
        i += 1;
    }
    string_of(out.as_slice())
}

/// A source with its trailing newline ensured.
pub open spec fn with_newline(s: Seq<char>) -> Seq<char> {
    if s.len() > 0 && s.last() == '\n' {
        s
    } else {
        s + seq!['\n']
    }
}

/// The rule text, item count and tag entries of the conf files, in order.
pub open spec fn assembled(files: Seq<Seq<char>>, data_dir: Seq<char>) -> (Seq<char>, int, Seq<(u32, Seq<Seq<char>>)>)
    decreases files.len(),
{
    if files.len() == 0 {
        (seq![], 0, seq![])
    } else {
        let (src, n, tags) = assembled(files.drop_last(), data_dir);
        let f = pm_rewritten(files.last(), data_dir);
        let items = spec_parse_conf(f);
        (with_newline(src + f), n + items.len(), tags + items_tags(items))
    }
}

impl CrsRuleset {
    /// Number of rule items (`SecRule` chains and `SecMarker`s) read from the sources.
    pub fn len(&self) -> (r: usize)
        ensures
            r == self.count(),
    {
        self.rule_count
    }

    pub closed spec fn count(&self) -> usize {
        self.rule_count
    }

    pub closed spec fn tag_table(&self) -> Map<u32, Seq<Seq<char>>> {
        table_view(self.rule_tags@)
    }

    /// The rule text the engine was compiled from.
    pub closed spec fn source(&self) -> Seq<char> {
        self.source@
    }

    /// The compiled engine.
    pub closed spec fn engine(&self) -> zentinel_modsec::ModSecurity {
        self.modsec
    }

    /// The rule text the engine was compiled from.
    pub fn source_text(&self) -> (r: &str)
        ensures
            r@ == self.source(),
    {
        self.source.as_str()
    }

    /// Build the rule set from the contents of the `.conf` files (in the order
    /// given), with `@pmFromFile` names resolved inside `data_dir`: the engine is
    /// compiled from the rewritten files joined, each ended by a newline.  `None`
    /// when the `@pmFromFile` pattern does not compile, the item count does not fit
    /// a `usize`, or the engine refuses the assembled rules (which it compiles with
    /// the data files it reads).
    pub fn from_sources(confs: &Vec<String>, data_dir: &str) -> (r: Option<CrsRuleset>)
        ensures
            ({
                let (src, n, tags) = assembled(tags_view(confs@), data_dir@);
                &&& r matches Some(rs) ==> rs.source() == src && rs.count() == n
                    && rs.tag_table() == with_entries(Map::empty(), tags)
                &&& n > usize::MAX ==> r is None
                &&& confs@.len() > 0 && !regex_compiles(pm_file_pattern()) ==> r is None
            }),
    {
        let ghost cv = tags_view(confs@);
        let mut source: Vec<char> = Vec::new();
        let mut count: usize = 0;
        let mut tags: HashMap<u32, Vec<String>> = HashMap::new();
        let mut i: usize = 0;
        assert(cv.take(0) =~= Seq::<Seq<char>>::empty());
        while i < confs.len()
            invariant
                i <= confs@.len(),
                cv == tags_view(confs@),
                i > 0 ==> regex_compiles(pm_file_pattern()),
                ({
                    let (src, n, tb) = assembled(cv.take(i as int), data_dir@);
                    source@ == src && count == n && table_view(tags@) == with_entries(Map::empty(), tb)
                }),
            decreases confs.len() - i,
        {
            let f = match rewrite_pm_from_file_paths(confs[i].as_str(), data_dir) {
                Some(f) => f,
                None => return None,
            };
            let items = parse_conf(f.as_str());
            proof {
                lemma_with_entries_append(
                    Map::empty(),
                    assembled(cv.take(i as int), data_dir@).2,
                    items_tags(items_view(items@)),
                );
            }
            collect_rule_tags(&items, &mut tags);
            if items.len() > usize::MAX - count {
                proof {
                    assert(cv.take(i + 1).drop_last() =~= cv.take(i as int));
                    assert(cv.take(i + 1).last() == confs@[i as int]@);
                    lemma_assembled_count_grows(cv, i as int + 1, data_dir@);
                }
                return None;
            }
            count = count + items.len();
            push_str(&mut source, f.as_str());
            if !(source.len() > 0 && source[source.len() - 1] == '\n') {
                source.push('\n');
            }
            assert(cv.take(i + 1).drop_last() =~= cv.take(i as int));
            assert(cv.take(i + 1).last() == confs@[i as int]@);
            i += 1;
        }
        assert(cv.take(confs@.len() as int) =~= cv);
        let text = string_of(source.as_slice());
        match modsec_from_string(text) {
            Some((m, text)) => Some(CrsRuleset { modsec: m, source: text, rule_tags: tags, rule_count: count }),
            None => None,
        }
    }

    /// What finishing a request gives once the engine ran its headers phase on
    /// `t`: when the phase was refused (`accepted` false) nothing is reported;
    /// when it was accepted, a transaction of the same engine holding the request
    /// of `t` with the body of `ctx` appended reported what `r` accounts for.
    pub open spec fn finishes_to(
        &self,
        t: zentinel_modsec::Transaction,
        accepted: bool,
        ctx: RequestContext,
        r: CrsResult,
    ) -> bool {
        if accepted {
            exists|t2: zentinel_modsec::Transaction|
                tx_engine(t2) == tx_engine(t) && #[trigger] body_added(t, t2, ctx) && reported(
                    r,
                    self.tag_table(),
                    t2,
                )
        } else {
            is_empty_result(r)
        }
    }

    /// What [`CrsRuleset::evaluate`] gives for `ctx`: a transaction of this rule
    /// set's engine is handed the head of the request and runs the headers phase;
    /// the request is then finished as [`CrsRuleset::finishes_to`] says for
    /// whether that phase was accepted.
    pub open spec fn evaluates_to(&self, ctx: RequestContext, r: CrsResult) -> bool {
        exists|t: zentinel_modsec::Transaction, accepted: bool|
            tx_engine(t) == self.engine() && handed_head(t, ctx) && #[trigger] self.finishes_to(
                t,
                accepted,
                ctx,
                r,
            )
    }

    /// The result for what the engine reported: the inbound `score`, the TX
    /// values of the four categories, and the ids of the rules that fired.
    pub fn result_from(
        &self,
        score: i32,
        sqli: Option<Vec<String>>,
        xss: Option<Vec<String>>,
        lfi: Option<Vec<String>>,
        rce: Option<Vec<String>>,
        matched: &Vec<String>,
    ) -> (r: CrsResult)
        ensures
            accounted(
                r,
                self.tag_table(),
                score,
                opt_strs(sqli),
                opt_strs(xss),
                opt_strs(lfi),
                opt_strs(rce),
                tags_view(matched@),
            ),
    {
        let (ids, tags) = account_matches(matched, &self.rule_tags);
        CrsResult {
            inbound_score: score as i64,
            sql_injection_score: tx_number_of(sqli),
            xss_score: tx_number_of(xss),
            lfi_score: tx_number_of(lfi),
            rce_score: tx_number_of(rce),
            matched_tags: tags,
            matched_rule_ids: ids,
        }
    }

    /// Run the engine on the request and account for what it reports: the inbound
    /// anomaly score, the per-category TX scores, the ids of the rules that fired
    /// and their tags.  When the engine fails on the URI or the headers, nothing is
    /// reported.
    pub fn evaluate(&self, ctx: &RequestContext) -> (r: CrsResult)
        ensures
            self.evaluates_to(*ctx, r),
            forall|t: Seq<char>|
                tags_view(r.matched_tags@).contains(t) <==> tag_of_any(
                    self.tag_table(),
                    r.matched_rule_ids@,
                    t,
                ),
            forall|i: int, j: int|
                0 <= i < j < r.matched_tags@.len() ==> r.matched_tags@[i]@ != r.matched_tags@[j]@,
    {
        let mut tx = new_transaction(&self.modsec);
        let uri = build_uri(ctx);
        let proto = chars_of("HTTP/1.1");
        let ps = string_of(proto.as_slice());
        if !process_uri(&mut tx, uri.as_str(), ctx.method.as_str(), ps.as_str()) {
            return empty_result();
        }
        let ghost hs = ctx.headers@;
        let mut i: usize = 0;
        assert forall|k: Seq<char>| #[trigger] tx_request_header(tx, k) == headers_named(hs.take(0), k) by {
            assert(hs.take(0) =~= Seq::<(String, String)>::empty());
        }
        while i < ctx.headers.len()
            invariant
                i <= hs.len(),
                hs == ctx.headers@,
                tx_engine(tx) == self.modsec,
                tx_request(tx) == (spec_uri(*ctx), ctx.method@, "HTTP/1.1"@, Seq::<u8>::empty()),
                forall|k: Seq<char>| #[trigger] tx_request_header(tx, k) == headers_named(hs.take(i as int), k),
            decreases ctx.headers.len() - i,
        {
            let ghost before = tx;
            let _ = add_request_header(&mut tx, ctx.headers[i].0.as_str(), ctx.headers[i].1.as_str());
            assert forall|k: Seq<char>| #[trigger] tx_request_header(tx, k) == headers_named(hs.take(i + 1), k) by {
                assert(hs.take(i + 1).drop_last() =~= hs.take(i as int));
                assert(hs.take(i + 1).last() == hs[i as int]);
                let prev = tx_request_header(before, k);
                assert(prev.push(hs[i as int].1@) =~= prev + seq![hs[i as int].1@]);
                assert(prev =~= prev + Seq::<Seq<char>>::empty());
            }
            i += 1;
        }
        assert(hs.take(hs.len() as int) =~= hs);
        let accepted = process_request_headers(&mut tx);
        assert(handed_head(tx, *ctx));
        self.finish_request(tx, accepted, ctx)
    }

    /// Finish a request whose headers phase ran on `tx`: when the phase was
    /// accepted, hand the body (if any) to the engine, run the body phase, and
    /// account for what the transaction reports; when it was refused, report
    /// nothing.
    pub fn finish_request(&self, tx: zentinel_modsec::Transaction, accepted: bool, ctx: &RequestContext) -> (r: CrsResult)
        ensures
            self.finishes_to(tx, accepted, *ctx, r),
            forall|t: Seq<char>|
                tags_view(r.matched_tags@).contains(t) <==> tag_of_any(
                    self.tag_table(),
                    r.matched_rule_ids@,
                    t,
                ),
            forall|i: int, j: int|
                0 <= i < j < r.matched_tags@.len() ==> r.matched_tags@[i]@ != r.matched_tags@[j]@,
    {
        if !accepted {
            return empty_result();
        }
        let ghost t0 = tx;
        let mut tx = tx;
        match &ctx.body {
            Some(b) => {
                if append_request_body(&mut tx, b.as_slice()) {
                    let _ = process_request_body(&mut tx);
                }
            },
            None => {
                assert(tx_request(t0).3 + Seq::<u8>::empty() =~= tx_request(t0).3);
            },
        }
        assert(body_added(t0, tx, *ctx));
        let score = anomaly_score(&tx);
        let m = matched_rules(&tx);
        let r = self.result_from(
            score,
            tx_values(&tx, "sql_injection_score"),
            tx_values(&tx, "xss_score"),
            tx_values(&tx, "lfi_score"),
            tx_values(&tx, "rce_score"),
            &m,
        );
        proof {
            assert(reported(r, self.tag_table(), tx));
        }
        r
    }
}

/// A request whose headers phase the engine accepted is reported whether or not
/// it has a body: the result carries the anomaly score, the category scores and
/// the ids of the rules that fired of a transaction of the same engine that was
/// handed the whole request (its head, then its body).
pub proof fn law_accepted_request_is_reported(
    rs: CrsRuleset,
    t: zentinel_modsec::Transaction,
    ctx: RequestContext,
    r: CrsResult,
)
    requires
        handed_head(t, ctx),
        rs.finishes_to(t, true, ctx, r),
    ensures
        exists|t2: zentinel_modsec::Transaction|
            tx_engine(t2) == tx_engine(t) && #[trigger] handed(t2, ctx) && r.inbound_score
                == tx_anomaly_score(t2) as i64 && r.matched_rule_ids@ == matched_ids(
                tx_matched_rules(t2),
            ) && r.sql_injection_score == tx_number(tx_variable(t2, "sql_injection_score"@))
                && r.xss_score == tx_number(tx_variable(t2, "xss_score"@)) && r.lfi_score
                == tx_number(tx_variable(t2, "lfi_score"@)) && r.rce_score == tx_number(
                tx_variable(t2, "rce_score"@),
            ),
{
    let t2 = choose|t2: zentinel_modsec::Transaction|
        tx_engine(t2) == tx_engine(t) && #[trigger] body_added(t, t2, ctx) && reported(
            r,
            rs.tag_table(),
            t2,
        );
    assert(Seq::<u8>::empty() + match ctx.body {
        Some(b) => b@,
        None => Seq::<u8>::empty(),
    } =~= match ctx.body {
        Some(b) => b@,
        None => Seq::<u8>::empty(),
    });
    assert(handed(t2, ctx));
}

/// Nothing is reported for a request only when the engine refused its headers
/// phase: an accepted request whose transaction reported a fired rule (an id
/// that reads as a number) never gives an empty result.
pub proof fn law_empty_only_when_refused(
    rs: CrsRuleset,
    t: zentinel_modsec::Transaction,
    accepted: bool,
    ctx: RequestContext,
    r: CrsResult,
)
    requires
        rs.finishes_to(t, accepted, ctx, r),
        is_empty_result(r),
    ensures
        !accepted || exists|t2: zentinel_modsec::Transaction|
            tx_engine(t2) == tx_engine(t) && #[trigger] body_added(t, t2, ctx)
                && tx_anomaly_score(t2) == 0 && matched_ids(tx_matched_rules(t2)).len() == 0,
{
}

proof fn lemma_assembled_count_grows(files: Seq<Seq<char>>, k: int, data_dir: Seq<char>)
    requires
        0 <= k <= files.len(),
    ensures
        assembled(files.take(k), data_dir).1 <= assembled(files, data_dir).1,
    decreases files.len(),
{
    if k < files.len() {
        assert(files.drop_last().take(k) =~= files.take(k));
        lemma_assembled_count_grows(files.drop_last(), k, data_dir);
    } else {
        assert(files.take(k) =~= files);
    }
}

} // verus!
