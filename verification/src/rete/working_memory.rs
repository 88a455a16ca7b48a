//! Working memory: the request fact, the assignments made by rule actions, and
//! the outcome that the actions accumulate for one request.
use vstd::prelude::*;

use crate::context::{lookup, spec_lookup, RequestContext};
use crate::crs::target::{headers_named, named_values, pct_decode, query_text, spec_pct_decode};
use crate::crs::transform::{spec_url_decode_uni, url_decode_uni};
use crate::crs::types::CrsResult;
use crate::grl::ast::{Path, PathSeg, Value, ValueView};
use crate::grl::registry::FunctionRegistry;
use crate::text::{chars_of, lossy_utf8, str_eq_chars, string_from_utf8_lossy, string_of, unicode_lowercase};

verus! {

/// Challenge kind requested by a `challenge(..)` action.
#[derive(Debug, Clone, Copy, PartialEq, Eq)]
pub enum ChallengeReq {
    Js,
    Pow,
}

/// Side-channel commands emitted by rule actions.
#[derive(Debug, Clone)]
pub struct Outcome {
    pub block_reason: Option<String>,
    pub allow: bool,
    pub challenge: Option<ChallengeReq>,
    pub rate_limit_secs: Option<u64>,
    pub log_messages: Vec<String>,
    pub matched_rules: Vec<String>,
    pub risk_delta: i64,
}

/// An `Outcome` with its texts as character sequences.
pub struct OutcomeView {
    pub block_reason: Option<Seq<char>>,
    pub allow: bool,
    pub challenge: Option<ChallengeReq>,
    pub rate_limit_secs: Option<u64>,
    pub log_messages: Seq<Seq<char>>,
    pub matched_rules: Seq<Seq<char>>,
    pub risk_delta: i64,
}

pub open spec fn texts(v: Seq<String>) -> Seq<Seq<char>> {
    v.map_values(|s: String| s@)
}

impl View for Outcome {
    type V = OutcomeView;

    open spec fn view(&self) -> OutcomeView {
        OutcomeView {
            block_reason: match self.block_reason {
                Some(s) => Some(s@),
                None => None,
            },
            allow: self.allow,
            challenge: self.challenge,
            rate_limit_secs: self.rate_limit_secs,
            log_messages: texts(self.log_messages@),
            matched_rules: texts(self.matched_rules@),
            risk_delta: self.risk_delta,
        }
    }
}

/// The outcome before any rule has fired.
pub open spec fn empty_outcome() -> OutcomeView {
    OutcomeView {
        block_reason: None,
        allow: false,
        challenge: None,
        rate_limit_secs: None,
        log_messages: seq![],
        matched_rules: seq![],
        risk_delta: 0,
    }
}

impl Outcome {
    /// Nothing requested yet.
    pub fn new() -> (r: Self)
        ensures
            r.block_reason is None,
            !r.allow,
            r.challenge is None,
            r.rate_limit_secs is None,
            r.log_messages@.len() == 0,
            r.matched_rules@.len() == 0,
            r.risk_delta == 0,
            r@ == empty_outcome(),
    {
        let r = Outcome {
            block_reason: None,
            allow: false,
            challenge: None,
            rate_limit_secs: None,
            log_messages: Vec::new(),
            matched_rules: Vec::new(),
            risk_delta: 0,
        };
        assert(texts(r.log_messages@) =~= seq![]);
        assert(texts(r.matched_rules@) =~= seq![]);
        r
    }
}

// ─── paths and the assignment overlay ───────────────────────────────────────

/// A path segment with its text as characters.
pub enum SegView {
    Field(Seq<char>),
    Index(Seq<char>),
}

pub open spec fn seg_view(s: PathSeg) -> SegView {
    match s {
        PathSeg::Field(n) => SegView::Field(n@),
        PathSeg::Index(k) => SegView::Index(k@),
    }
}

/// The segments of a path as plain values; two paths are the same key when
/// these are equal.
pub open spec fn path_key(p: Path) -> Seq<SegView> {
    p.segments@.map_values(|x: PathSeg| seg_view(x))
}

/// The assignment overlay as plain values.
pub open spec fn scratch_view(v: Seq<(Path, Value)>) -> Seq<(Seq<SegView>, ValueView)> {
    v.map_values(|e: (Path, Value)| (path_key(e.0), e.1@))
}

/// The position of the entry for key `k`, from `i` on.
pub open spec fn key_pos(s: Seq<(Seq<SegView>, ValueView)>, k: Seq<SegView>, i: int) -> Option<int>
    decreases s.len() - i,
{
    if i < 0 || i >= s.len() {
        None
    } else if s[i].0 == k {
        Some(i)
    } else {
        key_pos(s, k, i + 1)
    }
}

/// The value assigned to `k`, if any.
pub open spec fn scratch_get(s: Seq<(Seq<SegView>, ValueView)>, k: Seq<SegView>) -> Option<ValueView> {
    match key_pos(s, k, 0) {
        Some(j) => Some(s[j].1),
        None => None,
    }
}

/// The overlay after assigning `v` to `k` (an earlier assignment is replaced).
pub open spec fn scratch_put(s: Seq<(Seq<SegView>, ValueView)>, k: Seq<SegView>, v: ValueView) -> Seq<
    (Seq<SegView>, ValueView),
> {
    match key_pos(s, k, 0) {
        Some(j) => s.update(j, (k, v)),
        None => s.push((k, v)),
    }
}

fn seg_eq(a: &PathSeg, b: &PathSeg) -> (r: bool)
    ensures
        r == (seg_view(*a) == seg_view(*b)),
{
    match (a, b) {
        (PathSeg::Field(x), PathSeg::Field(y)) => {
            let yc = chars_of(y.as_str());
            str_eq_chars(x.as_str(), yc.as_slice())
        },
        (PathSeg::Index(x), PathSeg::Index(y)) => {
            let yc = chars_of(y.as_str());
            str_eq_chars(x.as_str(), yc.as_slice())
        },
        _ => false,
    }
}

/// Whether two paths have the same segments.
pub fn path_eq(a: &Path, b: &Path) -> (r: bool)
    ensures
        r == (path_key(*a) == path_key(*b)),
{
    let ghost ka = path_key(*a);
    let ghost kb = path_key(*b);
    if a.segments.len() != b.segments.len() {
        assert(ka.len() != kb.len());
        return false;
    }
    let mut i: usize = 0;
    while i < a.segments.len()
        invariant
            i <= a.segments@.len(),
            a.segments@.len() == b.segments@.len(),
            ka == path_key(*a),
            kb == path_key(*b),
            forall|j: int| 0 <= j < i ==> ka[j] == kb[j],
        decreases a.segments.len() - i,
    {
        if !seg_eq(&a.segments[i], &b.segments[i]) {
            assert(ka[i as int] != kb[i as int]);
            return false;
        }
        i += 1;
    }
    assert(ka =~= kb);
    true
}

fn find_key(s: &Vec<(Path, Value)>, p: &Path) -> (r: Option<usize>)
    ensures
        match r {
            Some(j) => j < s@.len() && key_pos(scratch_view(s@), path_key(*p), 0) == Some(j as int),
            None => key_pos(scratch_view(s@), path_key(*p), 0) is None,
        },
{
    let ghost sv = scratch_view(s@);
    let ghost k = path_key(*p);
    let mut i: usize = 0;
    while i < s.len()
        invariant
            i <= s@.len(),
            sv == scratch_view(s@),
            k == path_key(*p),
            key_pos(sv, k, 0) == key_pos(sv, k, i as int),
        decreases s.len() - i,
    {
        if path_eq(&s[i].0, p) {
            return Some(i);
        }
        i += 1;
    }
    None
}

/// A copy of a value.
pub fn copy_value(v: &Value) -> (r: Value)
    ensures
        r@ == v@,
{
    match v {
        Value::Null => Value::Null,
        Value::Bool(b) => Value::Bool(*b),
        Value::Int(i) => Value::Int(*i),
        Value::Str(s) => Value::Str(s.clone()),
    }
}

/// A copy of a path.
pub fn copy_path(p: &Path) -> (r: Path)
    ensures
        path_key(r) == path_key(*p),
{
    let mut segs: Vec<PathSeg> = Vec::new();
    let mut i: usize = 0;
    while i < p.segments.len()
        invariant
            i <= p.segments@.len(),
            segs@.len() == i,
            forall|j: int| 0 <= j < i ==> seg_view(#[trigger] segs@[j]) == seg_view(p.segments@[j]),
        decreases p.segments.len() - i,
    {
        let s = match &p.segments[i] {
            PathSeg::Field(n) => PathSeg::Field(n.clone()),
            PathSeg::Index(k) => PathSeg::Index(k.clone()),
        };
        segs.push(s);
        i += 1;
    }
    let r = Path { segments: segs };
    assert(path_key(r) =~= path_key(*p));
    r
}

// ─── resolving request paths ────────────────────────────────────────────────

/// The text of an optional string (empty when absent).
pub open spec fn opt_text(s: Option<String>) -> Seq<char> {
    match s {
        Some(t) => t@,
        None => seq![],
    }
}

/// What `Request.<Field>` (or `Request.Headers["name"]`, `Request.Ext["key"]`)
/// reads from the request; every other path is `Null`.  `Path` is percent-decoded,
/// `Query` form-decoded, header names compare case-insensitively.
pub open spec fn spec_resolve(k: Seq<SegView>, ctx: RequestContext) -> ValueView {
    if k.len() < 2 || k[0] != SegView::Field("Request"@) || !(k[1] is Field) {
        ValueView::Null
    } else {
        let f = k[1]->Field_0;
        if f == "Method"@ {
            ValueView::Str(ctx.method@)
        } else if f == "Path"@ {
            ValueView::Str(spec_url_decode_uni(ctx.path@))
        } else if f == "RawPath"@ {
            ValueView::Str(ctx.path@)
        } else if f == "Query"@ {
            ValueView::Str(spec_pct_decode(query_text(ctx)))
        } else if f == "RawQuery"@ {
            ValueView::Str(query_text(ctx))
        } else if f == "Body"@ {
            ValueView::Str(
                match ctx.body {
                    Some(b) => lossy_utf8(b@),
                    None => seq![],
                },
            )
        } else if f == "ClientIp"@ {
            ValueView::Str(ctx.client_ip@)
        } else if f == "RequestId"@ {
            ValueView::Str(ctx.request_id@)
        } else if f == "SessionId"@ {
            ValueView::Str(opt_text(ctx.session_id))
        } else if f == "DeviceFp"@ {
            ValueView::Str(opt_text(ctx.device_fp))
        } else if f == "Tier"@ {
            ValueView::Str(ctx.tier.spec_name())
        } else if f == "RiskScore"@ {
            ValueView::Int(ctx.risk_score.0 as i64)
        } else if f == "Xff"@ {
            ValueView::Str(opt_text(ctx.xff_header))
        } else if f == "Headers"@ {
            if k.len() > 2 && k[2] is Index {
                let vs = headers_named(ctx.headers@, unicode_lowercase(k[2]->Index_0));
                ValueView::Str(
                    if vs.len() > 0 {
                        vs[0]
                    } else {
                        seq![]
                    },
                )
            } else {
                ValueView::Null
            }
        } else if f == "Ext"@ {
            if k.len() > 2 && k[2] is Index {
                ValueView::Str(
                    match spec_lookup(ctx.extensions@, k[2]->Index_0) {
                        Some(v) => v,
                        None => seq![],
                    },
                )
            } else {
                ValueView::Null
            }
        } else {
            ValueView::Null
        }
    }
}

fn text_of(s: &Option<String>) -> (r: String)
    ensures
        r@ == opt_text(*s),
{
    match s {
        Some(t) => t.clone(),
        None => {
            let e: Vec<char> = Vec::new();
            string_of(e.as_slice())
        },
    }
}

fn field_is(f: &[char], l: &str) -> (r: bool)
    ensures
        r == (f@ == l@),
{
    let v = chars_of(l);
    crate::text::chars_eq(f, v.as_slice())
}

/// Resolve a path against the request (see [`spec_resolve`]).
pub fn resolve(path: &Path, ctx: &RequestContext) -> (r: Value)
    ensures
        r@ == spec_resolve(path_key(*path), *ctx),
{
    let ghost k = path_key(*path);
    let segs = &path.segments;
    if segs.len() < 2 {
        return Value::Null;
    }
    let head = match &segs[0] {
        PathSeg::Field(h) => h,
        PathSeg::Index(_) => {
            return Value::Null;
        },
    };
    let hc = chars_of(head.as_str());
    if !field_is(hc.as_slice(), "Request") {
        assert(k[0] != SegView::Field("Request"@));
        return Value::Null;
    }
    let field = match &segs[1] {
        PathSeg::Field(f) => f,
        PathSeg::Index(_) => {
            return Value::Null;
        },
    };
    let f = chars_of(field.as_str());
    let fs = f.as_slice();
    if field_is(fs, "Method") {
        Value::Str(ctx.method.clone())
    } else if field_is(fs, "Path") {
        Value::Str(url_decode_uni(ctx.path.as_str()))
    } else if field_is(fs, "RawPath") {
        Value::Str(ctx.path.clone())
    } else if field_is(fs, "Query") {
        let q = text_of(&ctx.query);
        Value::Str(pct_decode(q.as_str()))
    } else if field_is(fs, "RawQuery") {
        Value::Str(text_of(&ctx.query))
    } else if field_is(fs, "Body") {
        match &ctx.body {
            Some(b) => Value::Str(string_from_utf8_lossy(b.as_slice())),
            None => Value::Str(text_of(&None)),
        }
    } else if field_is(fs, "ClientIp") {
        Value::Str(ctx.client_ip.clone())
    } else if field_is(fs, "RequestId") {
        Value::Str(ctx.request_id.clone())
    } else if field_is(fs, "SessionId") {
        Value::Str(text_of(&ctx.session_id))
    } else if field_is(fs, "DeviceFp") {
        Value::Str(text_of(&ctx.device_fp))
    } else if field_is(fs, "Tier") {
        Value::Str(ctx.tier.name())
    } else if field_is(fs, "RiskScore") {
        Value::Int(ctx.risk_score.0 as i64)
    } else if field_is(fs, "Xff") {
        Value::Str(text_of(&ctx.xff_header))
    } else if field_is(fs, "Headers") {
        if segs.len() > 2 {
            match &segs[2] {
                PathSeg::Index(name) => {
                    let vs = named_values(&ctx.headers, name.as_str());
                    if vs.len() > 0 {
                        Value::Str(vs[0].clone())
                    } else {
                        Value::Str(text_of(&None))
                    }
                },
                PathSeg::Field(_) => Value::Null,
            }
        } else {
            Value::Null
        }
    } else if field_is(fs, "Ext") {
        if segs.len() > 2 {
            match &segs[2] {
                PathSeg::Index(key) => match lookup(&ctx.extensions, key.as_str()) {
                    Some(v) => Value::Str(v.clone()),
                    None => Value::Str(text_of(&None)),
                },
                PathSeg::Field(_) => Value::Null,
            }
        } else {
            Value::Null
        }
    } else {
        Value::Null
    }
}

proof fn lemma_key_pos_bounds(s: Seq<(Seq<SegView>, ValueView)>, k: Seq<SegView>, i: int)
    requires
        0 <= i,
    ensures
        match key_pos(s, k, i) {
            Some(j) => i <= j < s.len() && s[j].0 == k && forall|m: int| i <= m < j ==> s[m].0 != k,
            None => forall|m: int| i <= m < s.len() ==> s[m].0 != k,
        },
    decreases s.len() - i,
{
    if i < s.len() {
        lemma_key_pos_bounds(s, k, i + 1);
    }
}

proof fn lemma_key_pos_first(s: Seq<(Seq<SegView>, ValueView)>, k: Seq<SegView>, j: int, i: int)
    requires
        0 <= i <= j < s.len(),
        s[j].0 == k,
        forall|m: int| i <= m < j ==> s[m].0 != k,
    ensures
        key_pos(s, k, i) == Some(j),
    decreases j - i,
{
    if i < j {
        lemma_key_pos_first(s, k, j, i + 1);
    }
}

/// A read gives back what the last write to the same path wrote, and a write
/// leaves every other path as it was.
pub proof fn law_read_after_write(
    s: Seq<(Seq<SegView>, ValueView)>,
    ctx: RequestContext,
    k: Seq<SegView>,
    v: ValueView,
    other: Seq<SegView>,
)
    ensures
        spec_read(scratch_put(s, k, v), ctx, k) == v,
        other != k ==> spec_read(scratch_put(s, k, v), ctx, other) == spec_read(s, ctx, other),
{
    let t = scratch_put(s, k, v);
    lemma_key_pos_bounds(s, k, 0);
    lemma_key_pos_bounds(s, other, 0);
    match key_pos(s, k, 0) {
        Some(j) => {
            lemma_key_pos_first(t, k, j, 0);
            if other != k {
                match key_pos(s, other, 0) {
                    Some(q) => {
                        lemma_key_pos_first(t, other, q, 0);
                    },
                    None => {
                        lemma_key_pos_bounds(t, other, 0);
                    },
                }
            }
        },
        None => {
            lemma_key_pos_first(t, k, s.len() as int, 0);
            if other != k {
                match key_pos(s, other, 0) {
                    Some(q) => {
                        lemma_key_pos_first(t, other, q, 0);
                    },
                    None => {
                        lemma_key_pos_bounds(t, other, 0);
                    },
                }
            }
        },
    }
}

// ─── working memory ─────────────────────────────────────────────────────────

/// Per-request rule-engine state.
pub struct WorkingMemory<'a> {
    pub fact: &'a RequestContext,
    /// Assignments made by actions; a read finds them before the request.
    pub scratch: Vec<(Path, Value)>,
    /// Side-channel commands emitted by action functions.
    pub outcome: Outcome,
    /// Context-aware functions callable from rules.
    pub registry: &'a FunctionRegistry,
    /// The CRS result for this request, when the CRS is installed.
    pub crs: &'a Option<CrsResult>,
}

/// What a path reads: the overlay first, then the request.
pub open spec fn spec_read(s: Seq<(Seq<SegView>, ValueView)>, ctx: RequestContext, k: Seq<SegView>) -> ValueView {
    match scratch_get(s, k) {
        Some(v) => v,
        None => spec_resolve(k, ctx),
    }
}

impl<'a> WorkingMemory<'a> {
    /// Empty overlay and outcome for `fact`.
    pub fn new(fact: &'a RequestContext, registry: &'a FunctionRegistry, crs: &'a Option<CrsResult>) -> (r: Self)
        ensures
            *r.fact == *fact,
            *r.registry == *registry,
            *r.crs == *crs,
            r.scratch@.len() == 0,
            r.outcome@ == empty_outcome(),
    {
        WorkingMemory { fact, scratch: Vec::new(), outcome: Outcome::new(), registry, crs }
    }

    /// Resolve a path: an assignment made earlier wins over the request.
    pub fn read_path(&self, path: &Path) -> (r: Value)
        ensures
            r@ == spec_read(scratch_view(self.scratch@), *self.fact, path_key(*path)),
    {
        match find_key(&self.scratch, path) {
            Some(j) => copy_value(&self.scratch[j].1),
            None => resolve(path, self.fact),
        }
    }

    /// Assign `value` to `path` in the overlay.
    pub fn write_path(&mut self, path: &Path, value: Value)
        ensures
            scratch_view(final(self).scratch@) == scratch_put(
                scratch_view(old(self).scratch@),
                path_key(*path),
                value@,
            ),
            final(self).fact == old(self).fact,
            final(self).registry == old(self).registry,
            final(self).crs == old(self).crs,
            final(self).outcome == old(self).outcome,
    {
        let ghost s0 = scratch_view(self.scratch@);
        let ghost v = value@;
        match find_key(&self.scratch, path) {
            Some(j) => {
                self.scratch.set(j, (copy_path(path), value));
                assert(scratch_view(self.scratch@) =~= s0.update(j as int, (path_key(*path), v)));
            },
            None => {
                self.scratch.push((copy_path(path), value));
                assert(scratch_view(self.scratch@) =~= s0.push((path_key(*path), v)));
            },
        }
    }
}

} // verus!
