//! Parser for ModSecurity/CRS `.conf` rule files.
//!
//! - `SecRule TARGETS "OPERATOR" "ACTIONS"` → `RuleItem::Rule`
//! - `SecMarker "NAME"` → `RuleItem::Marker`
//!
//! Rules with unsupported operators (invalid regex, `@validateByteRange`, ...)
//! are dropped, together with the members of a dropped chain.
use vstd::prelude::*;

use crate::crs::types::{
    ActionsView, CrsActions, CrsOperator, CrsTarget, CrsTransform, DefaultAction, OperatorView,
    RhsView, RuleItem, RuleItemView, SecRule, SecRuleView, SetVarOp, SetVarRhs, SetVarView,
    TargetView, VarOp, items_view, opt_view, setvars_view, strings_view, targets_view,
};
use crate::net::{IpNetwork, parse_net_or_host, spec_net_of};
use crate::pattern::{build_phrase_matcher, compile_regex, regex_compiles};
use crate::text::{
    chars_eq, chars_eq_ignore_ascii_case, chars_of, eq_ignore_ascii_case, find_char,
    find_char_from, is_whitespace, is_ws, lemma_find_char_from, lemma_word_end, parse_i64,
    parse_uint, rfind_char, rfind_char_before, skip_ws, slice_chars, spec_parse_i64,
    spec_parse_uint, split_char, split_chars, split_words, starts_with_chars, strip_prefix,
    strip_prefix_chars, strip_suffix, strip_suffix_chars, string_of, to_lowercase, trim,
    trim_chars, trim_matches, trim_matches_chars, trim_start, trim_start_chars,
    trim_start_matches, trim_start_matches_chars, unicode_lowercase, vecs_view, word_end, words,
};

verus! {

// ─── small helpers ──────────────────────────────────────────────────────────

fn lit(s: &str) -> (r: Vec<char>)
    ensures
        r@ == s@,
{
    chars_of(s)
}

fn is_lit(s: &[char], l: &str) -> (r: bool)
    ensures
        r == (s@ == l@),
{
    let v = lit(l);
    chars_eq(s, v.as_slice())
}

fn strings_from(v: &Vec<Vec<char>>) -> (r: Vec<String>)
    ensures
        strings_view(r@) == vecs_view(v@),
{
    let mut out: Vec<String> = Vec::new();
    let mut i: usize = 0;
    while i < v.len()
        invariant
            i <= v.len(),
            strings_view(out@) == vecs_view(v@.subrange(0, i as int)),
        decreases v.len() - i,
    {
        let ghost o0 = out@;
        let st = string_of(v[i].as_slice());
        out.push(st);
        assert(strings_view(out@) =~= strings_view(o0).push(st@));
        assert(vecs_view(v@.subrange(0, i + 1)) =~= vecs_view(v@.subrange(0, i as int)).push(
            v@[i as int]@,
        ));
        i += 1;
    }
    assert(v@.subrange(0, v@.len() as int) =~= v@);
    out
}

// ─── line joining ───────────────────────────────────────────────────────────

/// A line without its trailing carriage return.
pub open spec fn strip_cr(l: Seq<char>) -> Seq<char> {
    if l.len() > 0 && l.last() == '\r' {
        l.drop_last()
    } else {
        l
    }
}

/// Each line without its trailing carriage return.
pub open spec fn strip_crs(ls: Seq<Seq<char>>) -> Seq<Seq<char>> {
    ls.map_values(|l: Seq<char>| strip_cr(l))
}

/// `str::lines`: pieces between `\n`s, each `\r\n` ending counting as one line
/// ending, and no empty last line after a final line ending.
pub open spec fn spec_lines(s: Seq<char>) -> Seq<Seq<char>> {
    let parts = split_char(s, '\n');
    let ended = strip_crs(parts.drop_last());
    if parts.last().len() == 0 {
        ended
    } else {
        ended.push(parts.last())
    }
}

pub proof fn lemma_split_nonempty(s: Seq<char>, c: char)
    ensures
        split_char(s, c).len() > 0,
    decreases s.len(),
{
    lemma_find_char_from(s, c, 0);
}

fn strip_cr_exec(l: &Vec<char>) -> (r: Vec<char>)
    ensures
        r@ == strip_cr(l@),
{
    if l.len() > 0 && l[l.len() - 1] == '\r' {
        slice_chars(l.as_slice(), 0, l.len() - 1)
    } else {
        slice_chars(l.as_slice(), 0, l.len())
    }
}

/// `s.lines()`, computed.
pub fn lines_of(s: &[char]) -> (r: Vec<Vec<char>>)
    ensures
        vecs_view(r@) == spec_lines(s@),
{
    let parts = split_chars(s, '\n');
    proof {
        lemma_split_nonempty(s@, '\n');
    }
    let ghost pv = vecs_view(parts@);
    assert(pv.len() == parts@.len());
    let n = parts.len();
    let mut out: Vec<Vec<char>> = Vec::new();
    let mut i: usize = 0;
    while i + 1 < n
        invariant
            n == parts@.len(),
            n > 0,
            pv == vecs_view(parts@),
            pv == split_char(s@, '\n'),
            i < n,
            vecs_view(out@) == strip_crs(pv.subrange(0, i as int)),
        decreases n - i,
    {
        let ghost o0 = out@;
        let x = strip_cr_exec(&parts[i]);
        out.push(x);
        assert(vecs_view(out@) =~= vecs_view(o0).push(x@));
        assert(strip_crs(pv.subrange(0, i + 1)) =~= strip_crs(pv.subrange(0, i as int)).push(
            strip_cr(pv[i as int]),
        ));
        i += 1;
    }
    assert(pv.subrange(0, i as int) =~= pv.drop_last());
    if parts[n - 1].len() > 0 {
        let ghost o0 = out@;
        let x = slice_chars(parts[n - 1].as_slice(), 0, parts[n - 1].len());
        out.push(x);
        assert(x@ =~= pv.last());
        assert(vecs_view(out@) =~= vecs_view(o0).push(x@));
        assert(vecs_view(out@) =~= spec_lines(s@));
    } else {
        assert(vecs_view(out@) =~= spec_lines(s@));
    }
    out
}

/// Joining state over the lines read so far: the finished lines and the
/// continuation being built.
pub open spec fn join_fold(lines: Seq<Seq<char>>) -> (Seq<Seq<char>>, Seq<char>)
    decreases lines.len(),
{
    if lines.len() == 0 {
        (seq![], seq![])
    } else {
        let (out, cur) = join_fold(lines.drop_last());
        let line = lines.last();
        if line.len() > 0 && line.last() == '\\' {
            (out, cur + line.drop_last() + seq![' '])
        } else {
            let t = trim(cur + line);
            (
                if t.len() > 0 {
                    out.push(t)
                } else {
                    out
                },
                seq![],
            )
        }
    }
}

/// Lines of `src` with backslash continuations joined (each joint becomes one
/// space), trimmed, and empty ones dropped.
pub open spec fn spec_join_continuations(src: Seq<char>) -> Seq<Seq<char>> {
    let (out, cur) = join_fold(spec_lines(src));
    if trim(cur).len() > 0 {
        out.push(trim(cur))
    } else {
        out
    }
}

fn append(a: &Vec<char>, b: &[char]) -> (r: Vec<char>)
    ensures
        r@ == a@ + b@,
{
    let mut r = slice_chars(a.as_slice(), 0, a.len());
    assert(a@.subrange(0, a@.len() as int) =~= a@);
    crate::text::push_chars(&mut r, b);
    r
}

fn join_lines(src: &[char]) -> (r: Vec<Vec<char>>)
    ensures
        vecs_view(r@) == spec_join_continuations(src@),
{
    let lines = lines_of(src);
    let ghost lv = vecs_view(lines@);
    let mut out: Vec<Vec<char>> = Vec::new();
    let mut cur: Vec<char> = Vec::new();
    let mut i: usize = 0;
    while i < lines.len()
        invariant
            i <= lines@.len(),
            lv == vecs_view(lines@),
            join_fold(lv.subrange(0, i as int)) == (vecs_view(out@), cur@),
        decreases lines.len() - i,
    {
        let line = &lines[i];
        let ghost o0 = vecs_view(out@);
        assert(lv.subrange(0, i + 1).drop_last() =~= lv.subrange(0, i as int));
        assert(lv.subrange(0, i + 1).last() == line@);
        if line.len() > 0 && line[line.len() - 1] == '\\' {
            let body = slice_chars(line.as_slice(), 0, line.len() - 1);
            let mut c2 = append(&cur, body.as_slice());
            c2.push(' ');
            assert(c2@ =~= cur@ + line@.drop_last() + seq![' ']);
            cur = c2;
        } else {
            let whole = append(&cur, line.as_slice());
            let t = trim_chars(whole.as_slice());
            if t.len() > 0 {
                out.push(t);
                assert(vecs_view(out@) =~= o0.push(t@));
            }
            cur = Vec::new();
            assert(cur@ =~= Seq::<char>::empty());
        }
        i += 1;
    }
    assert(lv.subrange(0, lines@.len() as int) =~= lv);
    let t = trim_chars(cur.as_slice());
    if t.len() > 0 {
        let ghost o0 = vecs_view(out@);
        out.push(t);
        assert(vecs_view(out@) =~= o0.push(t@));
    }
    out
}

/// Join backslash-continued lines of a `.conf` source.
pub fn join_continuations(src: &str) -> (r: Vec<String>)
    ensures
        strings_view(r@) == spec_join_continuations(src@),
{
    let cs = chars_of(src);
    let v = join_lines(cs.as_slice());
    strings_from(&v)
}

// ─── chain detection ────────────────────────────────────────────────────────

/// Some comma-separated token of `parts` is `chain` (ASCII case-insensitively).
pub open spec fn any_chain_token(parts: Seq<Seq<char>>) -> bool {
    exists|i: int| 0 <= i < parts.len() && eq_ignore_ascii_case(trim(#[trigger] parts[i]), "chain"@)
}

/// Whether the last double-quoted token of a raw `SecRule` line holds a `chain` action.
pub open spec fn spec_has_chain_action(rest: Seq<char>) -> bool {
    match rfind_char_before(rest, '"', rest.len() as int) {
        Some(last) => match rfind_char_before(rest, '"', last) {
            Some(open) => any_chain_token(split_char(rest.subrange(open + 1, last), ',')),
            None => false,
        },
        None => false,
    }
}

#[verifier::loop_isolation(false)]
fn has_chain_action(rest: &[char]) -> (r: bool)
    ensures
        r == spec_has_chain_action(rest@),
{
    match rfind_char(rest, '"', rest.len()) {
        Some(last) => match rfind_char(rest, '"', last) {
            Some(open) => {
                let actions = slice_chars(rest, open + 1, last);
                let parts = split_chars(actions.as_slice(), ',');
                let chain = lit("chain");
                let ghost pv = vecs_view(parts@);
                assert(pv == split_char(rest@.subrange(open + 1, last as int), ','));
                let mut i: usize = 0;
                while i < parts.len()
                    invariant
                        i <= parts@.len(),
                        pv == vecs_view(parts@),
                        chain@ == "chain"@,
                        forall|j: int|
                            0 <= j < i ==> !eq_ignore_ascii_case(trim(#[trigger] pv[j]), "chain"@),
                    decreases parts.len() - i,
                {
                    let t = trim_chars(parts[i].as_slice());
                    if chars_eq_ignore_ascii_case(t.as_slice(), chain.as_slice()) {
                        assert(eq_ignore_ascii_case(trim(pv[i as int]), "chain"@));
                        assert(any_chain_token(pv));
                        return true;
                    }
                    i += 1;
                }
                false
            },
            None => false,
        },
        None => false,
    }
}

// ─── tokenizer ──────────────────────────────────────────────────────────────

/// Split at the first whitespace: the token before it and the rest from it.
pub open spec fn spec_split_token(s: Seq<char>) -> Option<(Seq<char>, Seq<char>)> {
    let e = word_end(s, 0);
    if e < s.len() {
        Some((s.subrange(0, e), s.subrange(e, s.len() as int)))
    } else {
        None
    }
}

fn split_token(s: &[char]) -> (r: Option<(Vec<char>, Vec<char>)>)
    ensures
        r matches Some(p) ==> spec_split_token(s@) == Some((p.0@, p.1@)),
        r is None ==> spec_split_token(s@) is None,
{
    let mut e: usize = 0;
    while e < s.len() && !is_whitespace(s[e])
        invariant
            e <= s.len(),
            word_end(s@, 0) == word_end(s@, e as int),
        decreases s.len() - e,
    {
        e += 1;
    }
    if e < s.len() {
        Some((slice_chars(s, 0, e), slice_chars(s, e, s.len())))
    } else {
        None
    }
}

/// Index of the first unescaped `"` of `inner` from `i` (a backslash escapes the
/// next character unless it is itself escaped).
pub open spec fn dq_close(inner: Seq<char>, i: int, prev_bs: bool) -> Option<int>
    decreases inner.len() - i,
{
    if i < 0 || i >= inner.len() {
        None
    } else if inner[i] == '"' && !prev_bs {
        Some(i)
    } else {
        dq_close(inner, i + 1, inner[i] == '\\' && !prev_bs)
    }
}

proof fn lemma_dq_close(inner: Seq<char>, i: int, prev_bs: bool)
    requires
        0 <= i,
    ensures
        dq_close(inner, i, prev_bs) matches Some(k) ==> i <= k < inner.len(),
    decreases inner.len() - i,
{
    if i < inner.len() && !(inner[i] == '"' && !prev_bs) {
        lemma_dq_close(inner, i + 1, inner[i] == '\\' && !prev_bs);
    }
}

/// A double-quoted token at the start of `s` (after whitespace): its content and
/// what follows the closing quote.
pub open spec fn spec_parse_dquoted(s: Seq<char>) -> Option<(Seq<char>, Seq<char>)> {
    let t = trim_start(s);
    if t.len() == 0 || t[0] != '"' {
        None
    } else {
        let inner = t.drop_first();
        match dq_close(inner, 0, false) {
            Some(i) => Some((inner.subrange(0, i), inner.subrange(i + 1, inner.len() as int))),
            None => None,
        }
    }
}

#[verifier::loop_isolation(false)]
fn parse_dquoted(s: &[char]) -> (r: Option<(Vec<char>, Vec<char>)>)
    ensures
        r matches Some(p) ==> spec_parse_dquoted(s@) == Some((p.0@, p.1@)),
        r is None ==> spec_parse_dquoted(s@) is None,
{
    let t = trim_start_chars(s);
    if t.len() == 0 || t[0] != '"' {
        return None;
    }
    let inner = slice_chars(t.as_slice(), 1, t.len());
    assert(inner@ =~= t@.drop_first());
    let mut prev_bs = false;
    let mut i: usize = 0;
    while i < inner.len()
        invariant
            i <= inner@.len(),
            dq_close(inner@, 0, false) == dq_close(inner@, i as int, prev_bs),
        decreases inner.len() - i,
    {
        let c = inner[i];
        if c == '"' && !prev_bs {
            assert(dq_close(inner@, i as int, prev_bs) == Some(i as int));
            assert(spec_parse_dquoted(s@) == Some(
                (inner@.subrange(0, i as int), inner@.subrange(i + 1, inner@.len() as int)),
            ));
            return Some((slice_chars(inner.as_slice(), 0, i), slice_chars(inner.as_slice(), i + 1, inner.len())));
        }
        prev_bs = c == '\\' && !prev_bs;
        i += 1;
    }
    None
}

// ─── targets ────────────────────────────────────────────────────────────────

/// The variable named by one target token.
pub open spec fn spec_parse_one_target(tok: Seq<char>) -> Option<TargetView> {
    if strip_prefix(tok, "&TX:"@) is Some {
        Some(TargetView::TxCount(strip_prefix(tok, "&TX:"@)->0))
    } else if strip_prefix(tok, "&REQUEST_HEADERS:"@) is Some {
        Some(TargetView::RequestHeadersCount(strip_prefix(tok, "&REQUEST_HEADERS:"@)->0))
    } else if tok == "&ARGS"@ {
        Some(TargetView::ArgsCount)
    } else if tok.len() > 0 && tok[0] == '&' {
        None
    } else {
        match find_char_from(tok, ':', 0) {
            Some(colon) => {
                let col = tok.subrange(0, colon);
                let sub = tok.subrange(colon + 1, tok.len() as int);
                if col == "REQUEST_HEADERS"@ {
                    Some(TargetView::RequestHeaders(Some(sub)))
                } else if col == "TX"@ {
                    Some(TargetView::Tx(sub))
                } else {
                    None
                }
            },
            None => spec_plain_target(tok),
        }
    }
}

/// A target named by a bare collection name.
pub open spec fn spec_plain_target(tok: Seq<char>) -> Option<TargetView> {
    if tok == "ARGS"@ {
        Some(TargetView::Args)
    } else if tok == "ARGS_NAMES"@ {
        Some(TargetView::ArgsNames)
    } else if tok == "REQUEST_COOKIES"@ {
        Some(TargetView::RequestCookies)
    } else if tok == "REQUEST_COOKIES_NAMES"@ {
        Some(TargetView::RequestCookiesNames)
    } else if tok == "REQUEST_HEADERS"@ {
        Some(TargetView::RequestHeaders(None))
    } else if tok == "REQUEST_URI"@ {
        Some(TargetView::RequestUri)
    } else if tok == "REQUEST_URI_RAW"@ {
        Some(TargetView::RequestUriRaw)
    } else if tok == "REQUEST_FILENAME"@ {
        Some(TargetView::RequestFilename)
    } else if tok == "REQUEST_BASENAME"@ {
        Some(TargetView::RequestBasename)
    } else if tok == "REQUEST_METHOD"@ {
        Some(TargetView::RequestMethod)
    } else if tok == "REQUEST_BODY"@ {
        Some(TargetView::RequestBody)
    } else if tok == "REQUEST_LINE"@ {
        Some(TargetView::RequestLine)
    } else if tok == "QUERY_STRING"@ {
        Some(TargetView::QueryString)
    } else if tok == "REMOTE_ADDR"@ {
        Some(TargetView::RemoteAddr)
    } else {
        None
    }
}

fn plain_target(tok: &[char]) -> (r: Option<CrsTarget>)
    ensures
        r matches Some(t) ==> spec_plain_target(tok@) == Some(t@),
        r is None ==> spec_plain_target(tok@) is None,
{
    if is_lit(tok, "ARGS") {
        Some(CrsTarget::Args)
    } else if is_lit(tok, "ARGS_NAMES") {
        Some(CrsTarget::ArgsNames)
    } else if is_lit(tok, "REQUEST_COOKIES") {
        Some(CrsTarget::RequestCookies)
    } else if is_lit(tok, "REQUEST_COOKIES_NAMES") {
        Some(CrsTarget::RequestCookiesNames)
    } else if is_lit(tok, "REQUEST_HEADERS") {
        Some(CrsTarget::RequestHeaders(None))
    } else if is_lit(tok, "REQUEST_URI") {
        Some(CrsTarget::RequestUri)
    } else if is_lit(tok, "REQUEST_URI_RAW") {
        Some(CrsTarget::RequestUriRaw)
    } else if is_lit(tok, "REQUEST_FILENAME") {
        Some(CrsTarget::RequestFilename)
    } else if is_lit(tok, "REQUEST_BASENAME") {
        Some(CrsTarget::RequestBasename)
    } else if is_lit(tok, "REQUEST_METHOD") {
        Some(CrsTarget::RequestMethod)
    } else if is_lit(tok, "REQUEST_BODY") {
        Some(CrsTarget::RequestBody)
    } else if is_lit(tok, "REQUEST_LINE") {
        Some(CrsTarget::RequestLine)
    } else if is_lit(tok, "QUERY_STRING") {
        Some(CrsTarget::QueryString)
    } else if is_lit(tok, "REMOTE_ADDR") {
        Some(CrsTarget::RemoteAddr)
    } else {
        None
    }
}

/// Parse one target token (already trimmed).
pub fn parse_one_target(tok: &[char]) -> (r: Option<CrsTarget>)
    ensures
        r matches Some(t) ==> spec_parse_one_target(tok@) == Some(t@),
        r is None ==> spec_parse_one_target(tok@) is None,
{
    let p1 = lit("&TX:");
    if let Some(rest) = strip_prefix_chars(tok, p1.as_slice()) {
        return Some(CrsTarget::TxCount(string_of(rest.as_slice())));
    }
    let p2 = lit("&REQUEST_HEADERS:");
    if let Some(rest) = strip_prefix_chars(tok, p2.as_slice()) {
        return Some(CrsTarget::RequestHeadersCount(string_of(rest.as_slice())));
    }
    if is_lit(tok, "&ARGS") {
        return Some(CrsTarget::ArgsCount);
    }
    if tok.len() > 0 && tok[0] == '&' {
        return None;
    }
    match find_char(tok, ':', 0) {
        Some(colon) => {
            proof {
                lemma_find_char_from(tok@, ':', 0);
            }
            let col = slice_chars(tok, 0, colon);
            let sub = slice_chars(tok, colon + 1, tok.len());
            if is_lit(col.as_slice(), "REQUEST_HEADERS") {
                Some(CrsTarget::RequestHeaders(Some(string_of(sub.as_slice()))))
            } else if is_lit(col.as_slice(), "TX") {
                Some(CrsTarget::Tx(string_of(sub.as_slice())))
            } else {
                None
            }
        },
        None => plain_target(tok),
    }
}

/// The targets named by the pieces of a `|`-separated list, unknown ones dropped.
pub open spec fn targets_of(parts: Seq<Seq<char>>) -> Seq<TargetView>
    decreases parts.len(),
{
    if parts.len() == 0 {
        seq![]
    } else {
        let prev = targets_of(parts.drop_last());
        match spec_parse_one_target(trim(parts.last())) {
            Some(t) => prev.push(t),
            None => prev,
        }
    }
}

/// The targets of a `SecRule` target list (`ARGS|REQUEST_HEADERS:User-Agent|...`).
pub open spec fn spec_parse_targets(s: Seq<char>) -> Seq<TargetView> {
    targets_of(split_char(s, '|'))
}

fn parse_targets(s: &[char]) -> (r: Vec<CrsTarget>)
    ensures
        targets_view(r@) == spec_parse_targets(s@),
{
    let parts = split_chars(s, '|');
    let ghost pv = vecs_view(parts@);
    let mut out: Vec<CrsTarget> = Vec::new();
    let mut i: usize = 0;
    while i < parts.len()
        invariant
            i <= parts@.len(),
            pv == vecs_view(parts@),
            targets_view(out@) == targets_of(pv.subrange(0, i as int)),
        decreases parts.len() - i,
    {
        let t = trim_chars(parts[i].as_slice());
        let ghost o0 = targets_view(out@);
        assert(pv.subrange(0, i + 1).drop_last() =~= pv.subrange(0, i as int));
        assert(pv.subrange(0, i + 1).last() == parts@[i as int]@);
        match parse_one_target(t.as_slice()) {
            Some(tg) => {
                out.push(tg);
                assert(targets_view(out@) =~= o0.push(tg@));
            },
            None => {},
        }
        i += 1;
    }
    assert(pv.subrange(0, parts@.len() as int) =~= pv);
    out
}

// ─── operator ───────────────────────────────────────────────────────────────

/// The variable name inside `%{tx.NAME}`.
pub open spec fn tx_ref_inner(s: Seq<char>) -> Option<Seq<char>> {
    match strip_prefix(s, "%{tx."@) {
        Some(x) => strip_suffix(x, "}"@),
        None => None,
    }
}

fn tx_ref_inner_exec(s: &[char]) -> (r: Option<Vec<char>>)
    ensures
        r matches Some(v) ==> tx_ref_inner(s@) == Some(v@),
        r is None ==> tx_ref_inner(s@) is None,
{
    let p = lit("%{tx.");
    let q = lit("}");
    match strip_prefix_chars(s, p.as_slice()) {
        Some(x) => strip_suffix_chars(x.as_slice(), q.as_slice()),
        None => None,
    }
}

/// A numeric comparison operator: against a TX variable (`%{tx.NAME}`, name
/// lowercased) or an integer literal.
pub open spec fn spec_compare_operator(args: Seq<char>, kind: int) -> Option<OperatorView> {
    match tx_ref_inner(args) {
        Some(v) => {
            let n = unicode_lowercase(v);
            Some(
                if kind == 0 {
                    OperatorView::EqTxRef(n)
                } else if kind == 1 {
                    OperatorView::LtTxRef(n)
                } else if kind == 2 {
                    OperatorView::LeTxRef(n)
                } else if kind == 3 {
                    OperatorView::GtTxRef(n)
                } else {
                    OperatorView::GeTxRef(n)
                },
            )
        },
        None => match spec_parse_i64(args) {
            Some(x) => Some(
                if kind == 0 {
                    OperatorView::Eq(x)
                } else if kind == 1 {
                    OperatorView::Lt(x)
                } else if kind == 2 {
                    OperatorView::Le(x)
                } else if kind == 3 {
                    OperatorView::Gt(x)
                } else {
                    OperatorView::Ge(x)
                },
            ),
            None => None,
        },
    }
}

fn compare_operator(args: &[char], kind: u8) -> (r: Option<CrsOperator>)
    ensures
        r matches Some(o) ==> spec_compare_operator(args@, kind as int) == Some(o@),
        r is None ==> spec_compare_operator(args@, kind as int) is None,
{
    match tx_ref_inner_exec(args) {
        Some(v) => {
            let l = to_lowercase(v.as_slice());
            let n = string_of(l.as_slice());
            Some(
                if kind == 0 {
                    CrsOperator::EqTxRef(n)
                } else if kind == 1 {
                    CrsOperator::LtTxRef(n)
                } else if kind == 2 {
                    CrsOperator::LeTxRef(n)
                } else if kind == 3 {
                    CrsOperator::GtTxRef(n)
                } else {
                    CrsOperator::GeTxRef(n)
                },
            )
        },
        None => match parse_i64(args) {
            Some(x) => Some(
                if kind == 0 {
                    CrsOperator::Eq(x)
                } else if kind == 1 {
                    CrsOperator::Lt(x)
                } else if kind == 2 {
                    CrsOperator::Le(x)
                } else if kind == 3 {
                    CrsOperator::Gt(x)
                } else {
                    CrsOperator::Ge(x)
                },
            ),
            None => None,
        },
    }
}

/// The networks of an `@ipMatch` list, unparseable entries dropped.
pub open spec fn nets_of(parts: Seq<Seq<char>>) -> Seq<IpNetwork>
    decreases parts.len(),
{
    if parts.len() == 0 {
        seq![]
    } else {
        let prev = nets_of(parts.drop_last());
        match spec_net_of(trim(parts.last())) {
            Some(n) => prev.push(n),
            None => prev,
        }
    }
}

fn parse_nets(args: &[char]) -> (r: Vec<IpNetwork>)
    ensures
        r@ == nets_of(split_char(args@, ',')),
        forall|i: int| 0 <= i < r@.len() ==> (#[trigger] r@[i]).wf(),
{
    let parts = split_chars(args, ',');
    let ghost pv = vecs_view(parts@);
    let mut out: Vec<IpNetwork> = Vec::new();
    let mut i: usize = 0;
    while i < parts.len()
        invariant
            i <= parts@.len(),
            pv == vecs_view(parts@),
            out@ == nets_of(pv.subrange(0, i as int)),
            forall|k: int| 0 <= k < out@.len() ==> (#[trigger] out@[k]).wf(),
        decreases parts.len() - i,
    {
        let t = trim_chars(parts[i].as_slice());
        let ts = string_of(t.as_slice());
        assert(pv.subrange(0, i + 1).drop_last() =~= pv.subrange(0, i as int));
        assert(pv.subrange(0, i + 1).last() == parts@[i as int]@);
        match parse_net_or_host(ts.as_str()) {
            Some(n) => out.push(n),
            None => {},
        }
        i += 1;
    }
    assert(pv.subrange(0, parts@.len() as int) =~= pv);
    out
}

/// The operator name (up to the first whitespace) and its trimmed argument.
pub open spec fn operator_name_args(body: Seq<char>) -> (Seq<char>, Seq<char>) {
    let e = word_end(body, 0);
    if e < body.len() {
        (body.subrange(0, e), trim(body.subrange(e, body.len() as int)))
    } else {
        (body, seq![])
    }
}

/// The operator an `@name args` text names, when it is supported.
pub open spec fn spec_operator_of(ln: Seq<char>, args: Seq<char>) -> Option<OperatorView> {
    if ln == "detectsqli"@ {
        Some(OperatorView::DetectSQLi)
    } else if ln == "detectxss"@ {
        Some(OperatorView::DetectXSS)
    } else if ln == "validateurlencoding"@ {
        Some(OperatorView::ValidateUrlEncoding)
    } else if ln == "validateutf8encoding"@ {
        Some(OperatorView::ValidateUtf8Encoding)
    } else if ln == "rx"@ {
        if regex_compiles(args) {
            Some(OperatorView::Rx(args))
        } else {
            None
        }
    } else if ln == "pm"@ {
        Some(OperatorView::Pm(words(args)))
    } else if ln == "pmfromfile"@ {
        Some(OperatorView::PmFromFile(trim(args)))
    } else if ln == "eq"@ {
        spec_compare_operator(args, 0)
    } else if ln == "lt"@ {
        spec_compare_operator(args, 1)
    } else if ln == "le"@ {
        spec_compare_operator(args, 2)
    } else if ln == "gt"@ {
        spec_compare_operator(args, 3)
    } else if ln == "ge"@ {
        spec_compare_operator(args, 4)
    } else if ln == "contains"@ {
        Some(OperatorView::Contains(unicode_lowercase(args)))
    } else if ln == "streq"@ {
        Some(OperatorView::Streq(args))
    } else if ln == "beginswith"@ {
        Some(OperatorView::BeginsWith(args))
    } else if ln == "endswith"@ {
        Some(OperatorView::EndsWith(args))
    } else if ln == "within"@ {
        Some(OperatorView::Within(words(args)))
    } else if ln == "ipmatch"@ {
        Some(OperatorView::IpMatch(nets_of(split_char(args, ','))))
    } else {
        None
    }
}

/// The (negation flag, operator) of a `SecRule` operator text such as
/// `!@rx pattern`, when the operator is supported.
pub open spec fn spec_parse_operator(s: Seq<char>) -> Option<(bool, OperatorView)> {
    let negate = s.len() > 0 && s[0] == '!';
    let s2 = if negate {
        trim_start(s.drop_first())
    } else {
        s
    };
    if s2.len() == 0 || s2[0] != '@' {
        None
    } else {
        let (name, args) = operator_name_args(s2.drop_first());
        match spec_operator_of(unicode_lowercase(name), args) {
            Some(op) => Some((negate, op)),
            None => None,
        }
    }
}

fn operator_of(ln: &[char], args: &[char]) -> (r: Option<CrsOperator>)
    ensures
        r matches Some(o) ==> spec_operator_of(ln@, args@) == Some(o@),
        r is None ==> spec_operator_of(ln@, args@) is None,
{
    if is_lit(ln, "detectsqli") {
        Some(CrsOperator::DetectSQLi)
    } else if is_lit(ln, "detectxss") {
        Some(CrsOperator::DetectXSS)
    } else if is_lit(ln, "validateurlencoding") {
        Some(CrsOperator::ValidateUrlEncoding)
    } else if is_lit(ln, "validateutf8encoding") {
        Some(CrsOperator::ValidateUtf8Encoding)
    } else if is_lit(ln, "rx") {
        let a = string_of(args);
        match compile_regex(a.as_str()) {
            Some(re) => Some(CrsOperator::Rx(re)),
            None => None,
        }
    } else if is_lit(ln, "pm") {
        let w = split_words(args);
        Some(CrsOperator::Pm(build_phrase_matcher(strings_from(&w))))
    } else if is_lit(ln, "pmfromfile") {
        let t = trim_chars(args);
        Some(CrsOperator::PmFromFile(string_of(t.as_slice())))
    } else if is_lit(ln, "eq") {
        compare_operator(args, 0)
    } else if is_lit(ln, "lt") {
        compare_operator(args, 1)
    } else if is_lit(ln, "le") {
        compare_operator(args, 2)
    } else if is_lit(ln, "gt") {
        compare_operator(args, 3)
    } else if is_lit(ln, "ge") {
        compare_operator(args, 4)
    } else if is_lit(ln, "contains") {
        let l = to_lowercase(args);
        Some(CrsOperator::Contains(string_of(l.as_slice())))
    } else if is_lit(ln, "streq") {
        Some(CrsOperator::Streq(string_of(args)))
    } else if is_lit(ln, "beginswith") {
        Some(CrsOperator::BeginsWith(string_of(args)))
    } else if is_lit(ln, "endswith") {
        Some(CrsOperator::EndsWith(string_of(args)))
    } else if is_lit(ln, "within") {
        let w = split_words(args);
        Some(CrsOperator::Within(strings_from(&w)))
    } else if is_lit(ln, "ipmatch") {
        Some(CrsOperator::IpMatch(parse_nets(args)))
    } else {
        None
    }
}

/// Parse a `SecRule` operator text (`@name args`, optionally negated with `!`).
pub fn parse_operator(s: &[char]) -> (r: Option<(bool, CrsOperator)>)
    ensures
        r matches Some(p) ==> spec_parse_operator(s@) == Some((p.0, p.1@)),
        r is None ==> spec_parse_operator(s@) is None,
{
    let negate = s.len() > 0 && s[0] == '!';
    let s2 = if negate {
        let rest = slice_chars(s, 1, s.len());
        assert(rest@ =~= s@.drop_first());
        trim_start_chars(rest.as_slice())
    } else {
        let c = slice_chars(s, 0, s.len());
        assert(c@ =~= s@);
        c
    };
    if s2.len() == 0 || s2[0] != '@' {
        return None;
    }
    let body = slice_chars(s2.as_slice(), 1, s2.len());
    assert(body@ =~= s2@.drop_first());
    let mut e: usize = 0;
    while e < body.len() && !is_whitespace(body[e])
        invariant
            e <= body@.len(),
            word_end(body@, 0) == word_end(body@, e as int),
        decreases body.len() - e,
    {
        e += 1;
    }
    let (name, args) = if e < body.len() {
        let rest = slice_chars(body.as_slice(), e, body.len());
        (slice_chars(body.as_slice(), 0, e), trim_chars(rest.as_slice()))
    } else {
        let n = slice_chars(body.as_slice(), 0, body.len());
        assert(n@ =~= body@);
        let a: Vec<char> = Vec::new();
        assert(a@ =~= Seq::<char>::empty());
        (n, a)
    };
    let ln = to_lowercase(name.as_slice());
    match operator_of(ln.as_slice(), args.as_slice()) {
        Some(op) => Some((negate, op)),
        None => None,
    }
}

// ─── actions ────────────────────────────────────────────────────────────────

/// Split an action string on commas outside single quotes: (finished tokens,
/// current token, inside quotes).
pub open spec fn split_actions_fold(s: Seq<char>) -> (Seq<Seq<char>>, Seq<char>, bool)
    decreases s.len(),
{
    if s.len() == 0 {
        (seq![], seq![], false)
    } else {
        let (toks, cur, in_sq) = split_actions_fold(s.drop_last());
        let c = s.last();
        if c == '\'' {
            (toks, cur.push(c), !in_sq)
        } else if c == ',' && !in_sq {
            (toks.push(cur), seq![], in_sq)
        } else {
            (toks, cur.push(c), in_sq)
        }
    }
}

/// The comma-separated tokens of an action string (commas inside single quotes
/// do not split; a trailing empty token is dropped).
pub open spec fn spec_split_actions(s: Seq<char>) -> Seq<Seq<char>> {
    let (toks, cur, _) = split_actions_fold(s);
    if cur.len() > 0 {
        toks.push(cur)
    } else {
        toks
    }
}

fn split_actions(s: &[char]) -> (r: Vec<Vec<char>>)
    ensures
        vecs_view(r@) == spec_split_actions(s@),
{
    let mut toks: Vec<Vec<char>> = Vec::new();
    let mut cur: Vec<char> = Vec::new();
    let mut in_sq = false;
    let mut i: usize = 0;
    while i < s.len()
        invariant
            i <= s.len(),
            split_actions_fold(s@.subrange(0, i as int)) == (
                vecs_view(toks@),
                cur@,
                in_sq,
            ),
        decreases s.len() - i,
    {
        let c = s[i];
        let ghost t0 = vecs_view(toks@);
        assert(s@.subrange(0, i + 1).drop_last() =~= s@.subrange(0, i as int));
        assert(s@.subrange(0, i + 1).last() == c);
        if c == '\'' {
            in_sq = !in_sq;
            cur.push(c);
        } else if c == ',' && !in_sq {
            let done = cur;
            toks.push(done);
            cur = Vec::new();
            assert(vecs_view(toks@) =~= t0.push(done@));
            assert(cur@ =~= Seq::<char>::empty());
        } else {
            cur.push(c);
        }
        i += 1;
    }
    assert(s@.subrange(0, s@.len() as int) =~= s@);
    if cur.len() > 0 {
        let ghost t0 = vecs_view(toks@);
        let last = cur;
        toks.push(last);
        assert(vecs_view(toks@) =~= t0.push(last@));
    }
    toks
}

/// A value with one pair of surrounding single or double quotes removed (after trimming).
pub open spec fn spec_unquote(s0: Seq<char>) -> Seq<char> {
    let s = trim(s0);
    if s.len() >= 2 && ((s[0] == '\'' && s.last() == '\'') || (s[0] == '"' && s.last() == '"')) {
        s.subrange(1, s.len() - 1)
    } else {
        s
    }
}

fn unquote(s0: &[char]) -> (r: Vec<char>)
    ensures
        r@ == spec_unquote(s0@),
{
    let s = trim_chars(s0);
    let n = s.len();
    if n >= 2 && ((s[0] == '\'' && s[n - 1] == '\'') || (s[0] == '"' && s[n - 1] == '"')) {
        slice_chars(s.as_slice(), 1, n - 1)
    } else {
        let r = slice_chars(s.as_slice(), 0, n);
        assert(r@ =~= s@);
        r
    }
}

/// The transformation a (lowercase) `t:` name selects.
pub open spec fn spec_parse_transform(name: Seq<char>) -> Option<CrsTransform> {
    if name == "lowercase"@ {
        Some(CrsTransform::Lowercase)
    } else if name == "urldecodeuni"@ {
        Some(CrsTransform::UrlDecodeUni)
    } else if name == "removenulls"@ {
        Some(CrsTransform::RemoveNulls)
    } else if name == "utf8tounicode"@ {
        Some(CrsTransform::Utf8ToUnicode)
    } else if name == "compresswhitespace"@ {
        Some(CrsTransform::CompressWhitespace)
    } else if name == "normalizepath"@ || name == "normalizepathwin"@ {
        Some(CrsTransform::NormalizePath)
    } else if name == "htmlentitydecode"@ {
        Some(CrsTransform::HtmlEntityDecode)
    } else if name == "jsdecode"@ {
        Some(CrsTransform::JsDecode)
    } else if name == "cssdecode"@ {
        Some(CrsTransform::CssDecode)
    } else if name == "base64decode"@ {
        Some(CrsTransform::Base64Decode)
    } else if name == "trim"@ {
        Some(CrsTransform::Trim)
    } else if name == "removewhitespace"@ {
        Some(CrsTransform::RemoveWhitespace)
    } else if name == "replacecomments"@ {
        Some(CrsTransform::ReplaceComments)
    } else if name == "length"@ {
        Some(CrsTransform::Length)
    } else if name == "escapeseqdecode"@ {
        Some(CrsTransform::EscapeSeqDecode)
    } else {
        None
    }
}

/// The transformation a (lowercase) `t:` name selects.
pub fn parse_transform(name: &[char]) -> (r: Option<CrsTransform>)
    ensures
        r == spec_parse_transform(name@),
{
    if is_lit(name, "lowercase") {
        Some(CrsTransform::Lowercase)
    } else if is_lit(name, "urldecodeuni") {
        Some(CrsTransform::UrlDecodeUni)
    } else if is_lit(name, "removenulls") {
        Some(CrsTransform::RemoveNulls)
    } else if is_lit(name, "utf8tounicode") {
        Some(CrsTransform::Utf8ToUnicode)
    } else if is_lit(name, "compresswhitespace") {
        Some(CrsTransform::CompressWhitespace)
    } else if is_lit(name, "normalizepath") || is_lit(name, "normalizepathwin") {
        Some(CrsTransform::NormalizePath)
    } else if is_lit(name, "htmlentitydecode") {
        Some(CrsTransform::HtmlEntityDecode)
    } else if is_lit(name, "jsdecode") {
        Some(CrsTransform::JsDecode)
    } else if is_lit(name, "cssdecode") {
        Some(CrsTransform::CssDecode)
    } else if is_lit(name, "base64decode") {
        Some(CrsTransform::Base64Decode)
    } else if is_lit(name, "trim") {
        Some(CrsTransform::Trim)
    } else if is_lit(name, "removewhitespace") {
        Some(CrsTransform::RemoveWhitespace)
    } else if is_lit(name, "replacecomments") {
        Some(CrsTransform::ReplaceComments)
    } else if is_lit(name, "length") {
        Some(CrsTransform::Length)
    } else if is_lit(name, "escapeseqdecode") {
        Some(CrsTransform::EscapeSeqDecode)
    } else {
        None
    }
}

/// The operation a `setvar` value (`tx.name=+%{tx.other}`, `tx.name=-5`,
/// `tx.name=5`) describes; `None` for an unknown form.
pub open spec fn spec_parse_setvar(s: Seq<char>) -> Option<SetVarView> {
    match find_char_from(s, '=', 0) {
        None => None,
        Some(eq) => {
            let var = unicode_lowercase(trim_start_matches(s.subrange(0, eq), "tx."@));
            let rhs_str = s.subrange(eq + 1, s.len() as int);
            let op = if rhs_str.len() > 0 && rhs_str[0] == '+' {
                VarOp::IncrBy
            } else if rhs_str.len() > 0 && rhs_str[0] == '-' {
                VarOp::DecrBy
            } else {
                VarOp::Assign
            };
            let rhs_s = if op == VarOp::Assign {
                rhs_str
            } else {
                rhs_str.drop_first()
            };
            if var.len() == 0 {
                None
            } else {
                match tx_ref_inner(rhs_s) {
                    Some(inner) => Some(
                        SetVarView { var, op, rhs: RhsView::TxRef(unicode_lowercase(inner)) },
                    ),
                    None => match spec_parse_i64(rhs_s) {
                        Some(n) => Some(SetVarView { var, op, rhs: RhsView::Int(n) }),
                        None => None,
                    },
                }
            }
        },
    }
}

/// Parse a raw `setvar` value (after stripping `setvar:` and single quotes).
pub fn parse_setvar(s: &str) -> (r: Option<SetVarOp>)
    ensures
        r matches Some(o) ==> spec_parse_setvar(s@) == Some(o@),
        r is None ==> spec_parse_setvar(s@) is None,
{
    let cs = chars_of(s);
    parse_setvar_chars(cs.as_slice())
}

fn parse_setvar_chars(s: &[char]) -> (r: Option<SetVarOp>)
    ensures
        r matches Some(o) ==> spec_parse_setvar(s@) == Some(o@),
        r is None ==> spec_parse_setvar(s@) is None,
{
    let eq = match find_char(s, '=', 0) {
        Some(k) => k,
        None => return None,
    };
    proof {
        lemma_find_char_from(s@, '=', 0);
    }
    let var_full = slice_chars(s, 0, eq);
    let rhs_str = slice_chars(s, eq + 1, s.len());
    let txp = lit("tx.");
    let stripped = trim_start_matches_chars(var_full.as_slice(), txp.as_slice());
    let var = to_lowercase(stripped.as_slice());
    let op = if rhs_str.len() > 0 && rhs_str[0] == '+' {
        VarOp::IncrBy
    } else if rhs_str.len() > 0 && rhs_str[0] == '-' {
        VarOp::DecrBy
    } else {
        VarOp::Assign
    };
    let rhs_s = match op {
        VarOp::Assign => {
            let c = slice_chars(rhs_str.as_slice(), 0, rhs_str.len());
            assert(c@ =~= rhs_str@);
            c
        },
        _ => {
            let c = slice_chars(rhs_str.as_slice(), 1, rhs_str.len());
            assert(c@ =~= rhs_str@.drop_first());
            c
        },
    };
    if var.len() == 0 {
        return None;
    }
    let var_s = string_of(var.as_slice());
    match tx_ref_inner_exec(rhs_s.as_slice()) {
        Some(inner) => {
            let l = to_lowercase(inner.as_slice());
            Some(SetVarOp { var: var_s, op, rhs: SetVarRhs::TxRef(string_of(l.as_slice())) })
        },
        None => match parse_i64(rhs_s.as_slice()) {
            Some(n) => Some(SetVarOp { var: var_s, op, rhs: SetVarRhs::Int(n) }),
            None => None,
        },
    }
}

/// Action-string state while parsing (`RawActions` as plain values).
#[verifier::ext_equal]
pub struct RawView {
    pub id: u32,
    pub phase: u8,
    pub skip_after: Option<Seq<char>>,
    pub setvars: Seq<SetVarView>,
    pub tags: Seq<Seq<char>>,
    pub severity: Option<Seq<char>>,
    pub is_nolog: bool,
    pub is_block: bool,
    pub is_chain: bool,
    pub is_capture: bool,
    pub is_multi_match: bool,
    pub transforms: Seq<CrsTransform>,
}

/// The state before any action is read: id 0, phase 2, nothing else set.
pub open spec fn raw_default() -> RawView {
    RawView {
        id: 0,
        phase: 2,
        skip_after: None,
        setvars: seq![],
        tags: seq![],
        severity: None,
        is_nolog: false,
        is_block: false,
        is_chain: false,
        is_capture: false,
        is_multi_match: false,
        transforms: seq![],
    }
}

/// The effect of one `key:value` action.
pub open spec fn keyed_action(ra: RawView, token: Seq<char>, colon: int) -> RawView {
    let key = unicode_lowercase(token.subrange(0, colon));
    let raw_val = token.subrange(colon + 1, token.len() as int);
    let val = spec_unquote(raw_val);
    if key == "id"@ {
        RawView {
            id: match spec_parse_uint(val, u32::MAX as int) {
                Some(v) => v as u32,
                None => 0,
            },
            ..ra
        }
    } else if key == "phase"@ {
        RawView {
            phase: match spec_parse_uint(val, u8::MAX as int) {
                Some(v) => v as u8,
                None => 2,
            },
            ..ra
        }
    } else if key == "tag"@ {
        RawView { tags: ra.tags.push(val), ..ra }
    } else if key == "severity"@ {
        RawView { severity: Some(val), ..ra }
    } else if key == "skipafter"@ {
        RawView { skip_after: Some(val), ..ra }
    } else if key == "setvar"@ {
        match spec_parse_setvar(trim_matches(trim(raw_val), '\'')) {
            Some(sv) => RawView { setvars: ra.setvars.push(sv), ..ra },
            None => ra,
        }
    } else if key == "t"@ {
        let lv = unicode_lowercase(val);
        if lv == "none"@ {
            RawView { transforms: seq![], ..ra }
        } else {
            match spec_parse_transform(lv) {
                Some(t) => RawView { transforms: ra.transforms.push(t), ..ra },
                None => ra,
            }
        }
    } else {
        ra
    }
}

/// The effect of one bare action word.
pub open spec fn flag_action(ra: RawView, token: Seq<char>) -> RawView {
    let lt = unicode_lowercase(token);
    if lt == "block"@ || lt == "deny"@ {
        RawView { is_block: true, ..ra }
    } else if lt == "pass"@ {
        RawView { is_block: false, ..ra }
    } else if lt == "chain"@ {
        RawView { is_chain: true, ..ra }
    } else if lt == "nolog"@ {
        RawView { is_nolog: true, ..ra }
    } else if lt == "capture"@ {
        RawView { is_capture: true, ..ra }
    } else if lt == "multimatch"@ {
        RawView { is_multi_match: true, ..ra }
    } else {
        ra
    }
}

/// The effect of one action token.
pub open spec fn action_step(ra: RawView, token0: Seq<char>) -> RawView {
    let token = trim(token0);
    if token.len() == 0 {
        ra
    } else {
        match find_char_from(token, ':', 0) {
            Some(colon) => keyed_action(ra, token, colon),
            None => flag_action(ra, token),
        }
    }
}

/// The actions of a list of tokens, read in order.
pub open spec fn actions_fold(tokens: Seq<Seq<char>>) -> RawView
    decreases tokens.len(),
{
    if tokens.len() == 0 {
        raw_default()
    } else {
        action_step(actions_fold(tokens.drop_last()), tokens.last())
    }
}

/// The parsed state of an action string.
pub open spec fn spec_parse_actions(s: Seq<char>) -> RawView {
    actions_fold(spec_split_actions(s))
}

/// The rule actions a parsed action state carries.
pub open spec fn raw_into_actions(ra: RawView) -> ActionsView {
    ActionsView {
        skip_after: ra.skip_after,
        setvars: ra.setvars,
        tags: ra.tags,
        severity: ra.severity,
        is_nolog: ra.is_nolog,
        default_action: if ra.is_block {
            DefaultAction::Block
        } else {
            DefaultAction::Pass
        },
        is_chain: ra.is_chain,
        is_capture: ra.is_capture,
        is_multi_match: ra.is_multi_match,
    }
}

/// Whether an action token is the bare word `word` (surrounding white space
/// aside, no `:` value, any case).
pub open spec fn is_bare_action(token: Seq<char>, word: Seq<char>) -> bool {
    let t = trim(token);
    &&& t.len() > 0
    &&& find_char_from(t, ':', 0) is None
    &&& unicode_lowercase(t) == word
}

/// The disruptive actions `deny` and `block` make a rule block, unless a later
/// `pass` undoes them: when the action at `i` is the bare word `deny` or `block`
/// and no later action is the bare word `pass`, the parsed rule's default
/// action is `Block`.
pub proof fn law_deny_or_block_blocks(tokens: Seq<Seq<char>>, i: int)
    requires
        0 <= i < tokens.len(),
        is_bare_action(tokens[i], "deny"@) || is_bare_action(tokens[i], "block"@),
        forall|j: int| i < j < tokens.len() ==> !is_bare_action(#[trigger] tokens[j], "pass"@),
    ensures
        actions_fold(tokens).is_block,
        raw_into_actions(actions_fold(tokens)).default_action == DefaultAction::Block,
    decreases tokens.len(),
{
    let last = tokens.last();
    let prev = actions_fold(tokens.drop_last());
    if i < tokens.len() - 1 {
        assert forall|j: int| i < j < tokens.drop_last().len() implies !is_bare_action(
            #[trigger] tokens.drop_last()[j],
            "pass"@,
        ) by {
            assert(tokens.drop_last()[j] == tokens[j]);
        }
        assert(tokens.drop_last()[i] == tokens[i]);
        law_deny_or_block_blocks(tokens.drop_last(), i);
        assert(!is_bare_action(tokens[tokens.len() - 1], "pass"@));
        assert(prev.is_block);
    }
    assert(action_step(prev, last).is_block);
}

struct RawActions {
    id: u32,
    phase: u8,
    skip_after: Option<String>,
    setvars: Vec<SetVarOp>,
    tags: Vec<String>,
    severity: Option<String>,
    is_nolog: bool,
    is_block: bool,
    is_chain: bool,
    is_capture: bool,
    is_multi_match: bool,
    transforms: Vec<CrsTransform>,
}

impl RawActions {
    spec fn view(&self) -> RawView {
        RawView {
            id: self.id,
            phase: self.phase,
            skip_after: opt_view(self.skip_after),
            setvars: setvars_view(self.setvars@),
            tags: strings_view(self.tags@),
            severity: opt_view(self.severity),
            is_nolog: self.is_nolog,
            is_block: self.is_block,
            is_chain: self.is_chain,
            is_capture: self.is_capture,
            is_multi_match: self.is_multi_match,
            transforms: self.transforms@,
        }
    }

    fn new() -> (r: Self)
        ensures
            r.view() == raw_default(),
    {
        let r = RawActions {
            id: 0,
            phase: 2,
            skip_after: None,
            setvars: Vec::new(),
            tags: Vec::new(),
            severity: None,
            is_nolog: false,
            is_block: false,
            is_chain: false,
            is_capture: false,
            is_multi_match: false,
            transforms: Vec::new(),
        };
        assert(r.view() =~= raw_default());
        r
    }

    fn into_crs_actions(self) -> (r: CrsActions)
        ensures
            r@ == raw_into_actions(self.view()),
    {
        CrsActions {
            skip_after: self.skip_after,
            setvars: self.setvars,
            tags: self.tags,
            severity: self.severity,
            is_nolog: self.is_nolog,
            default_action: if self.is_block {
                DefaultAction::Block
            } else {
                DefaultAction::Pass
            },
            is_chain: self.is_chain,
            is_capture: self.is_capture,
            is_multi_match: self.is_multi_match,
        }
    }

    fn keyed(&mut self, token: &[char], colon: usize)
        requires
            colon < token.len(),
        ensures
            final(self).view() == keyed_action(old(self).view(), token@, colon as int),
    {
        let key_raw = slice_chars(token, 0, colon);
        let key = to_lowercase(key_raw.as_slice());
        let raw_val = slice_chars(token, colon + 1, token.len());
        let val = unquote(raw_val.as_slice());
        let ghost old_view = self.view();
        if is_lit(key.as_slice(), "id") {
            self.id = match parse_uint(val.as_slice(), 0xffff_ffff) {
                Some(v) => v as u32,
                None => 0,
            };
        } else if is_lit(key.as_slice(), "phase") {
            self.phase = match parse_uint(val.as_slice(), 0xff) {
                Some(v) => v as u8,
                None => 2,
            };
        } else if is_lit(key.as_slice(), "tag") {
            self.tags.push(string_of(val.as_slice()));
            assert(strings_view(self.tags@) =~= old_view.tags.push(val@));
        } else if is_lit(key.as_slice(), "severity") {
            self.severity = Some(string_of(val.as_slice()));
        } else if is_lit(key.as_slice(), "skipafter") {
            self.skip_after = Some(string_of(val.as_slice()));
        } else if is_lit(key.as_slice(), "setvar") {
            let t = trim_chars(raw_val.as_slice());
            let sv = trim_matches_chars(t.as_slice(), '\'');
            match parse_setvar_chars(sv.as_slice()) {
                Some(o) => {
                    let ghost ov = o@;
                    self.setvars.push(o);
                    assert(setvars_view(self.setvars@) =~= old_view.setvars.push(
                        ov,
                    ));
                },
                None => {},
            }
        } else if is_lit(key.as_slice(), "t") {
            let lv = to_lowercase(val.as_slice());
            if is_lit(lv.as_slice(), "none") {
                self.transforms.clear();
            } else {
                match parse_transform(lv.as_slice()) {
                    Some(t) => self.transforms.push(t),
                    None => {},
                }
            }
        }
        assert(self.view() =~= keyed_action(old_view, token@, colon as int));
    }

    fn flag(&mut self, token: &[char])
        ensures
            final(self).view() == flag_action(old(self).view(), token@),
    {
        let lt = to_lowercase(token);
        if is_lit(lt.as_slice(), "block") || is_lit(lt.as_slice(), "deny") {
            self.is_block = true;
        } else if is_lit(lt.as_slice(), "pass") {
            self.is_block = false;
        } else if is_lit(lt.as_slice(), "chain") {
            self.is_chain = true;
        } else if is_lit(lt.as_slice(), "nolog") {
            self.is_nolog = true;
        } else if is_lit(lt.as_slice(), "capture") {
            self.is_capture = true;
        } else if is_lit(lt.as_slice(), "multimatch") {
            self.is_multi_match = true;
        }
    }
}

/// Returns `(transforms, raw actions)` of an action string.
fn parse_actions(s: &[char]) -> (r: (Vec<CrsTransform>, RawActions))
    ensures
        r.1.view() == spec_parse_actions(s@),
        r.0@ == r.1.view().transforms,
{
    let tokens = split_actions(s);
    let ghost tv = vecs_view(tokens@);
    let mut ra = RawActions::new();
    let mut i: usize = 0;
    while i < tokens.len()
        invariant
            i <= tokens@.len(),
            tv == vecs_view(tokens@),
            ra.view() == actions_fold(tv.subrange(0, i as int)),
        decreases tokens.len() - i,
    {
        assert(tv.subrange(0, i + 1).drop_last() =~= tv.subrange(0, i as int));
        assert(tv.subrange(0, i + 1).last() == tokens@[i as int]@);
        let token = trim_chars(tokens[i].as_slice());
        if token.len() > 0 {
            match find_char(token.as_slice(), ':', 0) {
                Some(colon) => {
                    proof {
                        lemma_find_char_from(token@, ':', 0);
                    }
                    ra.keyed(token.as_slice(), colon);
                },
                None => {
                    ra.flag(token.as_slice());
                },
            }
        }
        i += 1;
    }
    assert(tv.subrange(0, tokens@.len() as int) =~= tv);
    let transforms = ra.transforms.clone();
    assert(transforms@ =~= ra.view().transforms);
    (transforms, ra)
}

// ─── SecRule parsing ────────────────────────────────────────────────────────

/// The rule a `SecRule` line (after the keyword) describes, when all three parts
/// are present and its operator is supported.
pub open spec fn spec_parse_secrule(rest0: Seq<char>) -> Option<SecRuleView> {
    match spec_split_token(rest0) {
        None => None,
        Some((targets_str, rest1)) => match spec_parse_dquoted(trim_start(rest1)) {
            None => None,
            Some((op_str, rest2)) => match spec_parse_dquoted(trim_start(rest2)) {
                None => None,
                Some((actions_str, _)) => match spec_parse_operator(trim(op_str)) {
                    None => None,
                    Some((negate_op, operator)) => {
                        let raw = spec_parse_actions(actions_str);
                        Some(
                            SecRuleView {
                                id: raw.id,
                                phase: raw.phase,
                                targets: spec_parse_targets(targets_str),
                                operator,
                                negate_op,
                                transforms: raw.transforms,
                                actions: raw_into_actions(raw),
                                cache_slot: seq![],
                                needs_body: false,
                            },
                        )
                    },
                },
            },
        },
    }
}

fn parse_secrule(rest0: &[char]) -> (r: Option<SecRule>)
    ensures
        r matches Some(x) ==> spec_parse_secrule(rest0@) == Some(x@),
        r is None ==> spec_parse_secrule(rest0@) is None,
{
    let (targets_str, rest1) = match split_token(rest0) {
        Some(p) => p,
        None => return None,
    };
    let r1 = trim_start_chars(rest1.as_slice());
    let (op_str, rest2) = match parse_dquoted(r1.as_slice()) {
        Some(p) => p,
        None => return None,
    };
    let r2 = trim_start_chars(rest2.as_slice());
    let (actions_str, _) = match parse_dquoted(r2.as_slice()) {
        Some(p) => p,
        None => return None,
    };
    let op_t = trim_chars(op_str.as_slice());
    let (negate_op, operator) = match parse_operator(op_t.as_slice()) {
        Some(p) => p,
        None => return None,
    };
    let targets = parse_targets(targets_str.as_slice());
    let (transforms, raw) = parse_actions(actions_str.as_slice());
    let ghost rv = raw.view();
    let id = raw.id;
    let phase = raw.phase;
    let actions = raw.into_crs_actions();
    let cache_slot: Vec<Option<u16>> = Vec::new();
    let rule = SecRule {
        id,
        phase,
        targets,
        operator,
        negate_op,
        transforms,
        actions,
        cache_slot,
        needs_body: false,
    };
    assert(rule@.cache_slot =~= Seq::<Option<u16>>::empty());
    assert(rule@ =~= spec_parse_secrule(rest0@)->0);
    Some(rule)
}

// ─── public entry point ─────────────────────────────────────────────────────

/// Parser state: items so far and how many chain members still to skip.
pub open spec fn conf_step(state: (Seq<RuleItemView>, int), line: Seq<char>) -> (
    Seq<RuleItemView>,
    int,
) {
    let (items, skip) = state;
    let t = trim(line);
    let kw = "SecRule"@;
    if t.len() == 0 || t[0] == '#' {
        state
    } else if kw.is_prefix_of(t) && t.len() > kw.len() && is_ws(t[kw.len() as int]) {
        let rest = trim_start(t.subrange(kw.len() as int, t.len() as int));
        if skip > 0 {
            (items, skip - 1 + (if spec_has_chain_action(rest) {
                1int
            } else {
                0int
            }))
        } else {
            match spec_parse_secrule(rest) {
                Some(r) => (items.push(RuleItemView::Rule(r)), skip),
                None => (
                    items,
                    if spec_has_chain_action(rest) {
                        1
                    } else {
                        skip
                    },
                ),
            }
        }
    } else if "SecMarker"@.is_prefix_of(t) {
        let name = trim(
            trim_matches(trim(t.subrange("SecMarker"@.len() as int, t.len() as int)), '"'),
        );
        (
            if name.len() > 0 {
                items.push(RuleItemView::Marker(name))
            } else {
                items
            },
            0,
        )
    } else {
        state
    }
}

/// The parser state after a sequence of joined lines.
pub open spec fn conf_fold(lines: Seq<Seq<char>>) -> (Seq<RuleItemView>, int)
    decreases lines.len(),
{
    if lines.len() == 0 {
        (seq![], 0)
    } else {
        conf_step(conf_fold(lines.drop_last()), lines.last())
    }
}

/// The rule items of a `.conf` source.
pub open spec fn spec_parse_conf(src: Seq<char>) -> Seq<RuleItemView> {
    conf_fold(spec_join_continuations(src)).0
}

proof fn lemma_conf_skip_bound(lines: Seq<Seq<char>>)
    ensures
        0 <= conf_fold(lines).1 <= 1,
    decreases lines.len(),
{
    if lines.len() > 0 {
        lemma_conf_skip_bound(lines.drop_last());
    }
}

/// Parse a CRS `.conf` file source into rule items.
pub fn parse_conf(src: &str) -> (r: Vec<RuleItem>)
    ensures
        items_view(r@) == spec_parse_conf(src@),
{
    let cs = chars_of(src);
    let lines = join_lines(cs.as_slice());
    let ghost lv = vecs_view(lines@);
    let kw = lit("SecRule");
    let mk = lit("SecMarker");
    let mut items: Vec<RuleItem> = Vec::new();
    let mut skip: u32 = 0;
    let mut i: usize = 0;
    while i < lines.len()
        invariant
            i <= lines@.len(),
            lv == vecs_view(lines@),
            lv == spec_join_continuations(src@),
            kw@ == "SecRule"@,
            mk@ == "SecMarker"@,
            conf_fold(lv.subrange(0, i as int)) == (
                items_view(items@),
                skip as int,
            ),
        decreases lines.len() - i,
    {
        assert(lv.subrange(0, i + 1).drop_last() =~= lv.subrange(0, i as int));
        assert(lv.subrange(0, i + 1).last() == lines@[i as int]@);
        proof {
            lemma_conf_skip_bound(lv.subrange(0, i as int));
        }
        let ghost it0 = items_view(items@);
        let t = trim_chars(lines[i].as_slice());
        if t.len() == 0 || t[0] == '#' {
        } else if starts_with_chars(t.as_slice(), kw.as_slice()) && t.len() > kw.len()
            && is_whitespace(t[kw.len()]) {
            let after = slice_chars(t.as_slice(), kw.len(), t.len());
            let rest = trim_start_chars(after.as_slice());
            if skip > 0 {
                let chains_further = has_chain_action(rest.as_slice());
                skip -= 1;
                if chains_further {
                    skip += 1;
                }
            } else {
                match parse_secrule(rest.as_slice()) {
                    Some(rule) => {
                        let ghost rv = rule@;
                        items.push(RuleItem::Rule(rule));
                        assert(items_view(items@) =~= it0.push(
                            RuleItemView::Rule(rv),
                        ));
                    },
                    None => {
                        if has_chain_action(rest.as_slice()) {
                            skip = 1;
                        }
                    },
                }
            }
        } else if starts_with_chars(t.as_slice(), mk.as_slice()) {
            skip = 0;
            let after = slice_chars(t.as_slice(), mk.len(), t.len());
            let a = trim_chars(after.as_slice());
            let b = trim_matches_chars(a.as_slice(), '"');
            let name = trim_chars(b.as_slice());
            if name.len() > 0 {
                items.push(RuleItem::Marker(string_of(name.as_slice())));
                assert(items_view(items@) =~= it0.push(
                    RuleItemView::Marker(name@),
                ));
            }
        }
        i += 1;
    }
    assert(lv.subrange(0, lines@.len() as int) =~= lv);
    items
}

} // verus!
