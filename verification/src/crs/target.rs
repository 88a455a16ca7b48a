//! The values of CRS target variables for a request.
use vstd::prelude::*;

use crate::context::RequestContext;
use crate::crs::transform::{spec_url_decode_uni, url_decode_uni};
use crate::crs::tx::TxState;
use crate::crs::types::{CrsTarget, TargetView};
use crate::text::{
    chars_of, contains_chars, find_char, find_char_from, i64_to_decimal, int_to_decimal,
    lemma_find_char_from, lower_string, push_str, rfind_char, rfind_char_before, seq_contains,
    slice_chars, split_char, split_chars, str_eq_chars, str_from_utf8, string_from_utf8_lossy,
    string_of, trim, trim_chars, u128_digits, unicode_lowercase, lossy_utf8, vecs_view,
};

verus! {

// ─── form-encoded text ──────────────────────────────────────────────────────

/// `s` with every `+` turned into a space.
pub open spec fn plus_to_space(s: Seq<char>) -> Seq<char> {
    s.map_values(|c: char| if c == '+' { ' ' } else { c })
}

/// Form decoding of one component: `+` is a space, then `%XX` escapes are decoded
/// (invalid UTF-8 becomes U+FFFD).
pub open spec fn spec_pct_decode(s: Seq<char>) -> Seq<char> {
    spec_url_decode_uni(plus_to_space(s))
}

/// Decode one form component.
pub fn pct_decode(s: &str) -> (r: String)
    ensures
        r@ == spec_pct_decode(s@),
{
    let cs = chars_of(s);
    let mut out: Vec<char> = Vec::new();
    let mut i: usize = 0;
    while i < cs.len()
        invariant
            i <= cs@.len(),
            cs@ == s@,
            out@ == plus_to_space(cs@.take(i as int)),
        decreases cs.len() - i,
    {
        out.push(if cs[i] == '+' { ' ' } else { cs[i] });
        i += 1;
        assert(out@ =~= plus_to_space(cs@.take(i as int)));
    }
    assert(cs@.take(cs@.len() as int) =~= cs@);
    let p = string_of(out.as_slice());
    url_decode_uni(p.as_str())
}

/// The `&`-separated pairs of a form-encoded text (none for an empty text).
pub open spec fn form_pairs(s: Seq<char>) -> Seq<Seq<char>> {
    if s.len() == 0 {
        seq![]
    } else {
        split_char(s, '&')
    }
}

/// The value of a pair: what follows its first `=`, or the whole pair.
pub open spec fn pair_value(p: Seq<char>) -> Seq<char> {
    match find_char_from(p, '=', 0) {
        Some(i) => p.subrange(i + 1, p.len() as int),
        None => p,
    }
}

/// The name of a pair: what precedes its first `=`, or the whole pair.
pub open spec fn pair_name(p: Seq<char>) -> Seq<char> {
    match find_char_from(p, '=', 0) {
        Some(i) => p.subrange(0, i),
        None => p,
    }
}

pub open spec fn decoded_values(ps: Seq<Seq<char>>) -> Seq<Seq<char>> {
    ps.map_values(|p: Seq<char>| spec_pct_decode(pair_value(p)))
}

pub open spec fn decoded_names(ps: Seq<Seq<char>>) -> Seq<Seq<char>> {
    ps.map_values(|p: Seq<char>| spec_pct_decode(pair_name(p)))
}

pub open spec fn strs_view(v: Seq<String>) -> Seq<Seq<char>> {
    v.map_values(|s: String| s@)
}

fn pairs_of(s: &str) -> (r: Vec<Vec<char>>)
    ensures
        vecs_view(r@) == form_pairs(s@),
{
    let cs = chars_of(s);
    if cs.len() == 0 {
        let e: Vec<Vec<char>> = Vec::new();
        assert(vecs_view(e@) =~= Seq::<Seq<char>>::empty());
        return e;
    }
    split_chars(cs.as_slice(), '&')
}

/// The decoded values (`names == false`) or names of a form-encoded text.
fn form_parts(s: &str, names: bool) -> (r: Vec<String>)
    ensures
        strs_view(r@) == (if names {
            decoded_names(form_pairs(s@))
        } else {
            decoded_values(form_pairs(s@))
        }),
{
    let ps = pairs_of(s);
    let ghost pv = vecs_view(ps@);
    let mut out: Vec<String> = Vec::new();
    let mut i: usize = 0;
    while i < ps.len()
        invariant
            i <= ps@.len(),
            pv == vecs_view(ps@),
            pv == form_pairs(s@),
            strs_view(out@) == (if names {
                decoded_names(pv.take(i as int))
            } else {
                decoded_values(pv.take(i as int))
            }),
        decreases ps.len() - i,
    {
        let p = &ps[i];
        assert(pv[i as int] == p@);
        proof {
            lemma_find_char_from(p@, '=', 0);
        }
        let piece = match find_char(p.as_slice(), '=', 0) {
            Some(k) => {
                assert(find_char_from(p@, '=', 0) == Some(k as int));
                if names {
                    slice_chars(p.as_slice(), 0, k)
                } else {
                    slice_chars(p.as_slice(), k + 1, p.len())
                }
            },
            None => slice_chars(p.as_slice(), 0, p.len()),
        };
        assert(p@.subrange(0, p@.len() as int) =~= p@);
        assert(piece@ == (if names {
            pair_name(p@)
        } else {
            pair_value(p@)
        }));
        let ps_s = string_of(piece.as_slice());
        let d = pct_decode(ps_s.as_str());
        let ghost o0 = strs_view(out@);
        let ghost dv = d@;
        out.push(d);
        assert(strs_view(out@) =~= o0.push(dv));
        assert(pv.take(i + 1) =~= pv.take(i as int).push(pv[i as int]));
        i += 1;
        proof {
            if names {
                assert(strs_view(out@) =~= decoded_names(pv.take(i as int)));
            } else {
                assert(strs_view(out@) =~= decoded_values(pv.take(i as int)));
            }
        }
    }
    assert(pv.take(ps@.len() as int) =~= pv);
    out
}

/// The number of pairs of a form-encoded text.
fn form_count(s: &str) -> (r: usize)
    ensures
        r == form_pairs(s@).len(),
{
    let ps = pairs_of(s);
    ps.len()
}

// ─── headers and cookies ────────────────────────────────────────────────────

/// Whether the request carries an `application/x-www-form-urlencoded` body type.
pub open spec fn spec_is_form_body(hs: Seq<(String, String)>) -> bool {
    exists|i: int|
        0 <= i < hs.len() && unicode_lowercase(#[trigger] hs[i].0@) == "content-type"@
            && seq_contains(unicode_lowercase(hs[i].1@), "application/x-www-form-urlencoded"@)
}

fn is_form_body(hs: &Vec<(String, String)>) -> (r: bool)
    ensures
        r == spec_is_form_body(hs@),
{
    let ct = chars_of("content-type");
    let form = chars_of("application/x-www-form-urlencoded");
    let mut i: usize = 0;
    while i < hs.len()
        invariant
            i <= hs@.len(),
            ct@ == "content-type"@,
            form@ == "application/x-www-form-urlencoded"@,
            forall|j: int|
                0 <= j < i ==> !(unicode_lowercase(#[trigger] hs@[j].0@) == "content-type"@
                    && seq_contains(
                    unicode_lowercase(hs@[j].1@),
                    "application/x-www-form-urlencoded"@,
                )),
        decreases hs.len() - i,
    {
        let k = lower_string(hs[i].0.as_str());
        let v = lower_string(hs[i].1.as_str());
        let vc = chars_of(v.as_str());
        if str_eq_chars(k.as_str(), ct.as_slice()) && contains_chars(vc.as_slice(), form.as_slice()) {
            return true;
        }
        i += 1;
    }
    false
}

/// The text of a form body: the body, when the request declares a form body and
/// the body is UTF-8.
pub open spec fn form_body(ctx: RequestContext) -> Option<Seq<char>> {
    match ctx.body {
        Some(b) => if spec_is_form_body(ctx.headers@) && vstd::utf8::valid_utf8(b@) {
            Some(vstd::utf8::decode_utf8(b@))
        } else {
            None
        },
        None => None,
    }
}

fn form_body_of(ctx: &RequestContext) -> (r: Option<String>)
    ensures
        match r {
            Some(s) => form_body(*ctx) == Some(s@),
            None => form_body(*ctx) is None,
        },
{
    match &ctx.body {
        Some(b) => if is_form_body(&ctx.headers) {
            str_from_utf8(b.as_slice())
        } else {
            None
        },
        None => None,
    }
}

/// The query text (`""` without a query).
pub open spec fn query_text(ctx: RequestContext) -> Seq<char> {
    match ctx.query {
        Some(q) => q@,
        None => seq![],
    }
}

fn query_of(ctx: &RequestContext) -> (r: String)
    ensures
        r@ == query_text(*ctx),
{
    match &ctx.query {
        Some(q) => q.clone(),
        None => String::new(),
    }
}

/// The values of the headers whose lowercase name is `name` (lowercase), in order.
pub open spec fn headers_named(hs: Seq<(String, String)>, name: Seq<char>) -> Seq<Seq<char>>
    decreases hs.len(),
{
    if hs.len() == 0 {
        seq![]
    } else {
        headers_named(hs.drop_last(), name) + if unicode_lowercase(hs.last().0@) == name {
            seq![hs.last().1@]
        } else {
            seq![]
        }
    }
}

pub fn named_values(hs: &Vec<(String, String)>, name: &str) -> (r: Vec<String>)
    ensures
        strs_view(r@) == headers_named(hs@, unicode_lowercase(name@)),
{
    let key = lower_string(name);
    let kc = chars_of(key.as_str());
    let mut out: Vec<String> = Vec::new();
    let mut i: usize = 0;
    while i < hs.len()
        invariant
            i <= hs@.len(),
            kc@ == unicode_lowercase(name@),
            strs_view(out@) == headers_named(hs@.take(i as int), unicode_lowercase(name@)),
        decreases hs.len() - i,
    {
        let k = lower_string(hs[i].0.as_str());
        let ghost o0 = strs_view(out@);
        if str_eq_chars(k.as_str(), kc.as_slice()) {
            out.push(hs[i].1.clone());
        }
        assert(hs@.take(i + 1).drop_last() =~= hs@.take(i as int));
        assert(hs@.take(i + 1).last() == hs@[i as int]);
        i += 1;
        assert(strs_view(out@) =~= headers_named(hs@.take(i as int), unicode_lowercase(name@)));
    }
    assert(hs@.take(hs@.len() as int) =~= hs@);
    out
}

pub open spec fn header_values(hs: Seq<(String, String)>) -> Seq<Seq<char>> {
    hs.map_values(|e: (String, String)| e.1@)
}

fn all_values(hs: &Vec<(String, String)>) -> (r: Vec<String>)
    ensures
        strs_view(r@) == header_values(hs@),
{
    let mut out: Vec<String> = Vec::new();
    let mut i: usize = 0;
    while i < hs.len()
        invariant
            i <= hs@.len(),
            strs_view(out@) == header_values(hs@.take(i as int)),
        decreases hs.len() - i,
    {
        let ghost o0 = strs_view(out@);
        let v = hs[i].1.clone();
        assert(v@ == hs@[i as int].1@);
        out.push(v);
        assert(strs_view(out@) =~= o0.push(hs@[i as int].1@));
        assert(hs@.take(i + 1) =~= hs@.take(i as int).push(hs@[i as int]));
        i += 1;
        assert(strs_view(out@) =~= header_values(hs@.take(i as int)));
    }
    assert(hs@.take(hs@.len() as int) =~= hs@);
    out
}

/// The value of the first header whose lowercase name is `cookie` (`""` if none).
pub open spec fn cookie_header(hs: Seq<(String, String)>) -> Seq<char>
    decreases hs.len(),
{
    if hs.len() == 0 {
        seq![]
    } else if unicode_lowercase(hs[0].0@) == "cookie"@ {
        hs[0].1@
    } else {
        cookie_header(hs.drop_first())
    }
}

fn cookie_header_of(hs: &Vec<(String, String)>) -> (r: String)
    ensures
        r@ == cookie_header(hs@),
{
    let ck = chars_of("cookie");
    let mut i: usize = 0;
    assert(hs@.skip(0) =~= hs@);
    while i < hs.len()
        invariant
            i <= hs@.len(),
            ck@ == "cookie"@,
            cookie_header(hs@) == cookie_header(hs@.skip(i as int)),
        decreases hs.len() - i,
    {
        assert(hs@.skip(i as int).drop_first() =~= hs@.skip(i + 1));
        assert(hs@.skip(i as int)[0] == hs@[i as int]);
        let k = lower_string(hs[i].0.as_str());
        if str_eq_chars(k.as_str(), ck.as_slice()) {
            return hs[i].1.clone();
        }
        i += 1;
    }
    assert(hs@.skip(i as int) =~= Seq::<(String, String)>::empty());
    String::new()
}

/// One `;`-separated piece of a cookie header as `(name, value)`: trimmed, split
/// at its first `=`, both sides trimmed; `None` for an empty name.
pub open spec fn cookie_pair(piece: Seq<char>) -> Option<(Seq<char>, Seq<char>)> {
    let t = trim(piece);
    let (k, v) = match find_char_from(t, '=', 0) {
        Some(i) => (trim(t.subrange(0, i)), trim(t.subrange(i + 1, t.len() as int))),
        None => (trim(t), seq![]),
    };
    if k.len() == 0 {
        None
    } else {
        Some((k, v))
    }
}

/// The cookie pairs of the pieces, in order.
pub open spec fn cookie_pairs_of(pieces: Seq<Seq<char>>) -> Seq<(Seq<char>, Seq<char>)>
    decreases pieces.len(),
{
    if pieces.len() == 0 {
        seq![]
    } else {
        cookie_pairs_of(pieces.drop_last()) + match cookie_pair(pieces.last()) {
            Some(kv) => seq![kv],
            None => seq![],
        }
    }
}

/// The cookies of the request.
pub open spec fn cookies(ctx: RequestContext) -> Seq<(Seq<char>, Seq<char>)> {
    cookie_pairs_of(split_char(cookie_header(ctx.headers@), ';'))
}

pub open spec fn cookie_values(ps: Seq<(Seq<char>, Seq<char>)>) -> Seq<Seq<char>> {
    ps.map_values(|kv: (Seq<char>, Seq<char>)| kv.1)
}

pub open spec fn cookie_names(ps: Seq<(Seq<char>, Seq<char>)>) -> Seq<Seq<char>> {
    ps.map_values(|kv: (Seq<char>, Seq<char>)| kv.0)
}

pub open spec fn pairs_view(v: Seq<(String, String)>) -> Seq<(Seq<char>, Seq<char>)> {
    v.map_values(|e: (String, String)| (e.0@, e.1@))
}

fn cookie_pairs(ctx: &RequestContext) -> (r: Vec<(String, String)>)
    ensures
        pairs_view(r@) == cookies(*ctx),
{
    let h = cookie_header_of(&ctx.headers);
    let hc = chars_of(h.as_str());
    let pieces = split_chars(hc.as_slice(), ';');
    let ghost pv = vecs_view(pieces@);
    let mut out: Vec<(String, String)> = Vec::new();
    let mut i: usize = 0;
    while i < pieces.len()
        invariant
            i <= pieces@.len(),
            pv == vecs_view(pieces@),
            pv == split_char(cookie_header(ctx.headers@), ';'),
            pairs_view(out@) == cookie_pairs_of(pv.take(i as int)),
        decreases pieces.len() - i,
    {
        let t = trim_chars(pieces[i].as_slice());
        assert(pv[i as int] == pieces@[i as int]@);
        proof {
            lemma_find_char_from(t@, '=', 0);
        }
        let (k, v) = match find_char(t.as_slice(), '=', 0) {
            Some(j) => {
                assert(find_char_from(t@, '=', 0) == Some(j as int));
                assert(j < t.len());
                let a = slice_chars(t.as_slice(), 0, j);
                let b = slice_chars(t.as_slice(), j + 1, t.len());
                (trim_chars(a.as_slice()), trim_chars(b.as_slice()))
            },
            None => (trim_chars(t.as_slice()), Vec::new()),
        };
        let ghost o0 = pairs_view(out@);
        if k.len() != 0 {
            out.push((string_of(k.as_slice()), string_of(v.as_slice())));
        }
        assert(pv.take(i + 1).drop_last() =~= pv.take(i as int));
        assert(pv.take(i + 1).last() == pv[i as int]);
        i += 1;
        assert(pairs_view(out@) =~= cookie_pairs_of(pv.take(i as int)));
    }
    assert(pv.take(pieces@.len() as int) =~= pv);
    out
}

// ─── request line ───────────────────────────────────────────────────────────

/// The request URI: the path, and `?query` when the query is not empty.
pub open spec fn spec_uri(ctx: RequestContext) -> Seq<char> {
    match ctx.query {
        Some(q) => if q@.len() != 0 {
            ctx.path@ + seq!['?'] + q@
        } else {
            ctx.path@
        },
        None => ctx.path@,
    }
}

pub fn build_uri(ctx: &RequestContext) -> (r: String)
    ensures
        r@ == spec_uri(*ctx),
{
    let mut out = chars_of(ctx.path.as_str());
    match &ctx.query {
        Some(q) => {
            let qc = chars_of(q.as_str());
            if qc.len() != 0 {
                out.push('?');
                push_str(&mut out, q.as_str());
            }
        },
        None => {},
    }
    string_of(out.as_slice())
}

/// The last `/`-separated segment of a path.
pub open spec fn basename(p: Seq<char>) -> Seq<char> {
    match rfind_char_before(p, '/', p.len() as int) {
        Some(k) => p.subrange(k + 1, p.len() as int),
        None => p,
    }
}

// ─── extraction ─────────────────────────────────────────────────────────────

/// The decimal text of a TX count flag.
pub open spec fn flag_text(b: bool) -> Seq<char> {
    if b {
        "1"@
    } else {
        "0"@
    }
}

/// The values of a target variable for a request.
pub open spec fn spec_extract(t: TargetView, ctx: RequestContext, tx: TxState) -> Seq<Seq<char>> {
    match t {
        TargetView::Args => decoded_values(form_pairs(query_text(ctx))) + match form_body(ctx) {
            Some(b) => decoded_values(form_pairs(b)),
            None => seq![],
        },
        TargetView::ArgsNames => decoded_names(form_pairs(query_text(ctx))) + match form_body(ctx) {
            Some(b) => decoded_names(form_pairs(b)),
            None => seq![],
        },
        TargetView::RequestCookies => cookie_values(cookies(ctx)),
        TargetView::RequestCookiesNames => cookie_names(cookies(ctx)),
        TargetView::RequestHeaders(None) => header_values(ctx.headers@),
        TargetView::RequestHeaders(Some(n)) => headers_named(ctx.headers@, unicode_lowercase(n)),
        TargetView::RequestUri => seq![spec_uri(ctx)],
        TargetView::RequestUriRaw => seq![spec_uri(ctx)],
        TargetView::RequestFilename => seq![ctx.path@],
        TargetView::RequestBasename => seq![basename(ctx.path@)],
        TargetView::RequestMethod => seq![ctx.method@],
        TargetView::RequestBody => seq![
            match ctx.body {
                Some(b) => lossy_utf8(b@),
                None => seq![],
            },
        ],
        TargetView::RequestLine => seq![ctx.method@ + seq![' '] + spec_uri(ctx) + " HTTP/1.1"@],
        TargetView::QueryString => seq![query_text(ctx)],
        TargetView::RemoteAddr => seq![ctx.client_ip@],
        TargetView::Tx(v) => if v.len() > 0 && v[0] == '/' {
            seq![]
        } else {
            seq![int_to_decimal(tx.spec_get(v) as int)]
        },
        TargetView::TxCount(v) => seq![flag_text(tx.spec_get(v) != 0)],
        TargetView::RequestHeadersCount(n) => seq![
            flag_text(headers_named(ctx.headers@, unicode_lowercase(n)).len() > 0),
        ],
        TargetView::ArgsCount => seq![
            int_to_decimal(
                form_pairs(query_text(ctx)).len() + match form_body(ctx) {
                    Some(b) => form_pairs(b).len() as int,
                    None => 0,
                },
            ),
        ],
    }
}

fn one(s: String) -> (r: Vec<String>)
    ensures
        strs_view(r@) == seq![s@],
{
    let mut v: Vec<String> = Vec::new();
    v.push(s);
    assert(strs_view(v@) =~= seq![s@]);
    v
}

fn text(s: &str) -> (r: String)
    ensures
        r@ == s@,
{
    let c = chars_of(s);
    string_of(c.as_slice())
}

fn append_strings(a: &mut Vec<String>, b: Vec<String>)
    ensures
        strs_view(final(a)@) == strs_view(old(a)@) + strs_view(b@),
{
    let ghost a0 = strs_view(a@);
    let ghost bv = strs_view(b@);
    let mut b = b;
    a.append(&mut b);
    assert(strs_view(a@) =~= a0 + bv);
}

/// All values of `target` for the request and transaction state.
pub fn extract_values(target: &CrsTarget, ctx: &RequestContext, tx: &TxState) -> (r: Vec<String>)
    ensures
        strs_view(r@) == spec_extract(target@, *ctx, *tx),
{
    match target {
        CrsTarget::Args | CrsTarget::ArgsNames => {
            let names = match target {
                CrsTarget::ArgsNames => true,
                _ => false,
            };
            let q = query_of(ctx);
            let mut vals = form_parts(q.as_str(), names);
            let ghost q0 = strs_view(vals@);
            match form_body_of(ctx) {
                Some(b) => {
                    let more = form_parts(b.as_str(), names);
                    append_strings(&mut vals, more);
                },
                None => {
                    assert(strs_view(vals@) =~= q0 + Seq::<Seq<char>>::empty());
                },
            }
            vals
        },
        CrsTarget::RequestCookies | CrsTarget::RequestCookiesNames => {
            let names = match target {
                CrsTarget::RequestCookiesNames => true,
                _ => false,
            };
            let ps = cookie_pairs(ctx);
            let ghost pv = pairs_view(ps@);
            let mut out: Vec<String> = Vec::new();
            let mut i: usize = 0;
            while i < ps.len()
                invariant
                    i <= ps@.len(),
                    pv == pairs_view(ps@),
                    strs_view(out@) == (if names {
                        cookie_names(pv.take(i as int))
                    } else {
                        cookie_values(pv.take(i as int))
                    }),
                decreases ps.len() - i,
            {
                let ghost o0 = strs_view(out@);
                let x = if names {
                    ps[i].0.clone()
                } else {
                    ps[i].1.clone()
                };
                assert(x@ == (if names { pv[i as int].0 } else { pv[i as int].1 }));
                out.push(x);
                assert(strs_view(out@) =~= o0.push(if names { pv[i as int].0 } else { pv[i as int].1 }));
                assert(pv.take(i + 1) =~= pv.take(i as int).push(pv[i as int]));
                i += 1;
                proof {
                    if names {
                        assert(strs_view(out@) =~= cookie_names(pv.take(i as int)));
                    } else {
                        assert(strs_view(out@) =~= cookie_values(pv.take(i as int)));
                    }
                }
            }
            assert(pv.take(ps@.len() as int) =~= pv);
            out
        },
        CrsTarget::RequestHeaders(None) => all_values(&ctx.headers),
        CrsTarget::RequestHeaders(Some(name)) => named_values(&ctx.headers, name.as_str()),
        CrsTarget::RequestUri | CrsTarget::RequestUriRaw => one(build_uri(ctx)),
        CrsTarget::RequestFilename => one(ctx.path.clone()),
        CrsTarget::RequestBasename => {
            let pc = chars_of(ctx.path.as_str());
            let b = match rfind_char(pc.as_slice(), '/', pc.len()) {
                Some(k) => slice_chars(pc.as_slice(), k + 1, pc.len()),
                None => pc,
            };
            one(string_of(b.as_slice()))
        },
        CrsTarget::RequestMethod => one(ctx.method.clone()),
        CrsTarget::RequestBody => match &ctx.body {
            Some(b) => one(string_from_utf8_lossy(b.as_slice())),
            None => one(String::new()),
        },
        CrsTarget::RequestLine => {
            let mut out = chars_of(ctx.method.as_str());
            out.push(' ');
            let u = build_uri(ctx);
            push_str(&mut out, u.as_str());
            push_str(&mut out, " HTTP/1.1");
            assert(out@ =~= ctx.method@ + seq![' '] + spec_uri(*ctx) + " HTTP/1.1"@);
            one(string_of(out.as_slice()))
        },
        CrsTarget::QueryString => one(query_of(ctx)),
        CrsTarget::RemoteAddr => one(ctx.client_ip.clone()),
        CrsTarget::Tx(var) => {
            let vc = chars_of(var.as_str());
            if vc.len() > 0 && vc[0] == '/' {
                let e: Vec<String> = Vec::new();
                assert(strs_view(e@) =~= Seq::<Seq<char>>::empty());
                return e;
            }
            let d = i64_to_decimal(tx.get(var.as_str()));
            one(string_of(d.as_slice()))
        },
        CrsTarget::TxCount(var) => {
            let set = tx.get(var.as_str()) != 0;
            one(text(if set { "1" } else { "0" }))
        },
        CrsTarget::RequestHeadersCount(name) => {
            let vs = named_values(&ctx.headers, name.as_str());
            assert(strs_view(vs@).len() == vs@.len());
            one(text(if vs.len() > 0 { "1" } else { "0" }))
        },
        CrsTarget::ArgsCount => {
            let q = query_of(ctx);
            let mut count: u128 = form_count(q.as_str()) as u128;
            match form_body_of(ctx) {
                Some(b) => {
                    count = count + form_count(b.as_str()) as u128;
                },
                None => {},
            }
            let d = u128_digits(count);
            assert(int_to_decimal(count as int) == crate::text::nat_digits(count as nat));
            one(string_of(d.as_slice()))
        },
    }
}

} // verus!
