//! Merging the shipped default rules into the rule list kept in the key-value
//! store: new defaults are added, stored defaults are refreshed, custom rules
//! are left alone.
use vstd::prelude::*;

use crate::crs::tx::{assoc_get, lemma_assoc_end, lemma_assoc_hit, lemma_assoc_skip};
use crate::text::{
    chars_of, find_char, find_char_from, lemma_find_char_from, slice_chars, str_eq_chars,
    string_of, to_uppercase, unicode_uppercase,
};

verus! {

/// A top-level field value of a rule document: strings, booleans and integers as
/// themselves, anything else by its canonical JSON text.
#[derive(Debug)]
pub enum FieldValue {
    Str(String),
    Bool(bool),
    Int(i64),
    Other(String),
}

/// A rule document: an object (field name to value) or any other JSON value, by
/// its canonical text.
#[derive(Debug)]
pub enum RuleDoc {
    Object(Vec<(String, FieldValue)>),
    Other(String),
}

pub enum FieldView {
    Str(Seq<char>),
    Bool(bool),
    Int(i64),
    Other(Seq<char>),
}

pub enum DocView {
    Object(Seq<(Seq<char>, FieldView)>),
    Other(Seq<char>),
}

impl View for FieldValue {
    type V = FieldView;

    open spec fn view(&self) -> FieldView {
        match self {
            FieldValue::Str(s) => FieldView::Str(s@),
            FieldValue::Bool(b) => FieldView::Bool(*b),
            FieldValue::Int(i) => FieldView::Int(*i),
            FieldValue::Other(s) => FieldView::Other(s@),
        }
    }
}

pub open spec fn fields_view(v: Seq<(String, FieldValue)>) -> Seq<(Seq<char>, FieldView)> {
    v.map_values(|e: (String, FieldValue)| (e.0@, e.1@))
}

impl View for RuleDoc {
    type V = DocView;

    open spec fn view(&self) -> DocView {
        match self {
            RuleDoc::Object(fs) => DocView::Object(fields_view(fs@)),
            RuleDoc::Other(s) => DocView::Other(s@),
        }
    }
}

pub open spec fn docs_view(v: Seq<RuleDoc>) -> Seq<DocView> {
    v.map_values(|d: RuleDoc| d@)
}

// ─── fields ─────────────────────────────────────────────────────────────────

/// The value of field `k` of a document (`None` for a non-object).
pub open spec fn doc_get(d: DocView, k: Seq<char>) -> Option<FieldView> {
    match d {
        DocView::Object(fs) => assoc_get(fs, k),
        DocView::Other(_) => None,
    }
}

/// The string `id` of a document.
pub open spec fn doc_id(d: DocView) -> Option<Seq<char>> {
    match doc_get(d, "id"@) {
        Some(FieldView::Str(s)) => Some(s),
        _ => None,
    }
}

/// Whether a document is marked as a shipped default (`is_default: true`).
pub open spec fn doc_is_default(d: DocView) -> bool {
    doc_get(d, "is_default"@) == Some(FieldView::Bool(true))
}

/// The position of the first field named `k`.
pub open spec fn key_index(fs: Seq<(Seq<char>, FieldView)>, k: Seq<char>, i: int) -> Option<int>
    decreases fs.len() - i,
{
    if i < 0 || i >= fs.len() {
        None
    } else if fs[i].0 == k {
        Some(i)
    } else {
        key_index(fs, k, i + 1)
    }
}

/// `fs` with field `k` set to `v` (replaced in place, or appended).
pub open spec fn set_field(fs: Seq<(Seq<char>, FieldView)>, k: Seq<char>, v: FieldView) -> Seq<
    (Seq<char>, FieldView),
> {
    match key_index(fs, k, 0) {
        Some(i) => fs.update(i, (k, v)),
        None => fs.push((k, v)),
    }
}

/// `base` with every field of `upd` set, in order.
pub open spec fn merge_fields(
    base: Seq<(Seq<char>, FieldView)>,
    upd: Seq<(Seq<char>, FieldView)>,
) -> Seq<(Seq<char>, FieldView)>
    decreases upd.len(),
{
    if upd.len() == 0 {
        base
    } else {
        merge_fields(set_field(base, upd[0].0, upd[0].1), upd.drop_first())
    }
}

/// Whether two field lists name the same fields with the same values.
pub open spec fn same_fields(a: Seq<(Seq<char>, FieldView)>, b: Seq<(Seq<char>, FieldView)>) -> bool {
    &&& forall|i: int| 0 <= i < a.len() ==> assoc_get(b, #[trigger] a[i].0) == assoc_get(a, a[i].0)
    &&& forall|j: int| 0 <= j < b.len() ==> assoc_get(a, #[trigger] b[j].0) == assoc_get(b, b[j].0)
}

fn field_eq(a: &FieldValue, b: &FieldValue) -> (r: bool)
    ensures
        r == (a@ == b@),
{
    match (a, b) {
        (FieldValue::Str(x), FieldValue::Str(y)) => {
            let yc = chars_of(y.as_str());
            str_eq_chars(x.as_str(), yc.as_slice())
        },
        (FieldValue::Bool(x), FieldValue::Bool(y)) => *x == *y,
        (FieldValue::Int(x), FieldValue::Int(y)) => *x == *y,
        (FieldValue::Other(x), FieldValue::Other(y)) => {
            let yc = chars_of(y.as_str());
            str_eq_chars(x.as_str(), yc.as_slice())
        },
        _ => false,
    }
}

fn copy_field(v: &FieldValue) -> (r: FieldValue)
    ensures
        r@ == v@,
{
    match v {
        FieldValue::Str(s) => FieldValue::Str(s.clone()),
        FieldValue::Bool(b) => FieldValue::Bool(*b),
        FieldValue::Int(i) => FieldValue::Int(*i),
        FieldValue::Other(s) => FieldValue::Other(s.clone()),
    }
}

fn copy_fields(fs: &Vec<(String, FieldValue)>) -> (r: Vec<(String, FieldValue)>)
    ensures
        fields_view(r@) == fields_view(fs@),
{
    let mut out: Vec<(String, FieldValue)> = Vec::new();
    let mut i: usize = 0;
    while i < fs.len()
        invariant
            i <= fs@.len(),
            fields_view(out@) == fields_view(fs@.take(i as int)),
        decreases fs.len() - i,
    {
        let ghost o0 = out@;
        let key = fs[i].0.clone();
        let val = copy_field(&fs[i].1);
        assert(key@ == fs@[i as int].0@);
        out.push((key, val));
        assert(fs@.take(i + 1) =~= fs@.take(i as int).push(fs@[i as int]));
        assert(fields_view(out@) =~= fields_view(o0).push((fs@[i as int].0@, fs@[i as int].1@)));
        i += 1;
        assert(fields_view(out@) =~= fields_view(fs@.take(i as int)));
    }
    assert(fs@.take(fs@.len() as int) =~= fs@);
    out
}

fn find_key(fs: &Vec<(String, FieldValue)>, k: &str) -> (r: Option<usize>)
    ensures
        match r {
            Some(i) => key_index(fields_view(fs@), k@, 0) == Some(i as int) && assoc_get(
                fields_view(fs@),
                k@,
            ) == Some(fs@[i as int].1@) && i < fs@.len(),
            None => key_index(fields_view(fs@), k@, 0) is None && assoc_get(fields_view(fs@), k@) is None,
        },
{
    let ghost s = fields_view(fs@);
    let kc = chars_of(k);
    let mut i: usize = 0;
    assert(s.skip(0) =~= s);
    while i < fs.len()
        invariant
            i <= fs@.len(),
            s == fields_view(fs@),
            kc@ == k@,
            assoc_get(s, k@) == assoc_get(s.skip(i as int), k@),
            key_index(s, k@, 0) == key_index(s, k@, i as int),
        decreases fs.len() - i,
    {
        if str_eq_chars(fs[i].0.as_str(), kc.as_slice()) {
            proof {
                lemma_assoc_hit(s, k@, i as int);
            }
            return Some(i);
        }
        proof {
            lemma_assoc_skip(s, k@, i as int);
        }
        i += 1;
    }
    proof {
        lemma_assoc_end(s, k@);
    }
    None
}

/// Set field `k` to `v`.
pub fn set_field_exec(fs: &mut Vec<(String, FieldValue)>, k: String, v: FieldValue)
    ensures
        fields_view(final(fs)@) == set_field(fields_view(old(fs)@), k@, v@),
{
    let ghost s = fields_view(fs@);
    let ghost kv = k@;
    let ghost vv = v@;
    match find_key(fs, k.as_str()) {
        Some(i) => {
            fs.set(i, (k, v));
            assert(fields_view(fs@) =~= s.update(i as int, (kv, vv)));
        },
        None => {
            fs.push((k, v));
            assert(fields_view(fs@) =~= s.push((kv, vv)));
        },
    }
}

fn get_field<'a>(fs: &'a Vec<(String, FieldValue)>, k: &str) -> (r: Option<&'a FieldValue>)
    ensures
        match r {
            Some(v) => assoc_get(fields_view(fs@), k@) == Some(v@),
            None => assoc_get(fields_view(fs@), k@) is None,
        },
{
    match find_key(fs, k) {
        Some(i) => Some(&fs[i].1),
        None => None,
    }
}

fn text(s: &str) -> (r: String)
    ensures
        r@ == s@,
{
    let c = chars_of(s);
    string_of(c.as_slice())
}

fn doc_id_of(d: &RuleDoc) -> (r: Option<String>)
    ensures
        match r {
            Some(s) => doc_id(d@) == Some(s@),
            None => doc_id(d@) is None,
        },
{
    match d {
        RuleDoc::Object(fs) => match get_field(fs, "id") {
            Some(FieldValue::Str(s)) => Some(s.clone()),
            _ => None,
        },
        RuleDoc::Other(_) => None,
    }
}

fn is_default(d: &RuleDoc) -> (r: bool)
    ensures
        r == doc_is_default(d@),
{
    match d {
        RuleDoc::Object(fs) => match get_field(fs, "is_default") {
            Some(FieldValue::Bool(b)) => *b,
            _ => false,
        },
        RuleDoc::Other(_) => false,
    }
}

fn same_fields_exec(a: &Vec<(String, FieldValue)>, b: &Vec<(String, FieldValue)>) -> (r: bool)
    ensures
        r == same_fields(fields_view(a@), fields_view(b@)),
{
    let ghost av = fields_view(a@);
    let ghost bv = fields_view(b@);
    let mut i: usize = 0;
    while i < a.len()
        invariant
            i <= a@.len(),
            av == fields_view(a@),
            bv == fields_view(b@),
            forall|j: int| 0 <= j < i ==> assoc_get(bv, #[trigger] av[j].0) == assoc_get(av, av[j].0),
        decreases a.len() - i,
    {
        let x = get_field(a, a[i].0.as_str());
        let y = get_field(b, a[i].0.as_str());
        let same = match (x, y) {
            (Some(p), Some(q)) => field_eq(p, q),
            (None, None) => true,
            _ => false,
        };
        assert(av[i as int].0 == a@[i as int].0@);
        if !same {
            assert(assoc_get(bv, av[i as int].0) != assoc_get(av, av[i as int].0));
            return false;
        }
        i += 1;
    }
    let mut j: usize = 0;
    while j < b.len()
        invariant
            j <= b@.len(),
            av == fields_view(a@),
            bv == fields_view(b@),
            forall|t: int| 0 <= t < a@.len() ==> assoc_get(bv, #[trigger] av[t].0) == assoc_get(av, av[t].0),
            forall|t: int| 0 <= t < j ==> assoc_get(av, #[trigger] bv[t].0) == assoc_get(bv, bv[t].0),
        decreases b.len() - j,
    {
        let x = get_field(a, b[j].0.as_str());
        let y = get_field(b, b[j].0.as_str());
        let same = match (x, y) {
            (Some(p), Some(q)) => field_eq(p, q),
            (None, None) => true,
            _ => false,
        };
        assert(bv[j as int].0 == b@[j as int].0@);
        if !same {
            assert(assoc_get(av, bv[j as int].0) != assoc_get(bv, bv[j as int].0));
            return false;
        }
        j += 1;
    }
    true
}

// ─── the merge ──────────────────────────────────────────────────────────────

/// The fields a shipped default rule is stored with: `enabled` (true unless
/// given), `is_default`, `tier`, `source: system` and `updated_ms`.
pub open spec fn default_fields(
    fs: Seq<(Seq<char>, FieldView)>,
    tier: Seq<char>,
    now: i64,
) -> Seq<(Seq<char>, FieldView)> {
    let e = if assoc_get(fs, "enabled"@) is Some {
        fs
    } else {
        set_field(fs, "enabled"@, FieldView::Bool(true))
    };
    set_field(
        set_field(
            set_field(set_field(e, "is_default"@, FieldView::Bool(true)), "tier"@, FieldView::Str(tier)),
            "source"@,
            FieldView::Str("system"@),
        ),
        "updated_ms"@,
        FieldView::Int(now),
    )
}

/// The position of the first stored document with the given id.
pub open spec fn doc_index(docs: Seq<DocView>, id: Seq<char>, i: int) -> Option<int>
    decreases docs.len() - i,
{
    if i < 0 || i >= docs.len() {
        None
    } else if doc_id(docs[i]) == Some(id) {
        Some(i)
    } else {
        doc_index(docs, id, i + 1)
    }
}

/// Merge one shipped default rule into the stored list; the flag says whether the
/// list changed.  A default without a string id is ignored; a new one is added
/// with `created_ms` and `created_by: system`; a stored rule with that id is
/// refreshed only when it is itself a default, and counts as changed only when
/// its fields differ afterwards.
pub open spec fn seed_one(existing: Seq<DocView>, dr: DocView, tier: Seq<char>, now: i64) -> (Seq<DocView>, bool) {
    match doc_id(dr) {
        None => (existing, false),
        Some(id) => {
            let rd = match dr {
                DocView::Object(fs) => DocView::Object(default_fields(fs, tier, now)),
                DocView::Other(t) => DocView::Other(t),
            };
            match doc_index(existing, id, 0) {
                None => {
                    let fresh = match rd {
                        DocView::Object(fs) => DocView::Object(
                            set_field(
                                set_field(fs, "created_ms"@, FieldView::Int(now)),
                                "created_by"@,
                                FieldView::Str("system"@),
                            ),
                        ),
                        DocView::Other(t) => DocView::Other(t),
                    };
                    (existing.push(fresh), true)
                },
                Some(j) => match (existing[j], rd) {
                    (DocView::Object(old), DocView::Object(upd)) => if doc_is_default(existing[j]) {
                        let merged = merge_fields(old, upd);
                        if same_fields(merged, old) {
                            (existing, false)
                        } else {
                            (existing.update(j, DocView::Object(merged)), true)
                        }
                    } else {
                        (existing, false)
                    },
                    _ => (existing, false),
                },
            }
        },
    }
}

/// The tier a defaults file stands for: the file name up to its first `.`,
/// uppercased, with `-` turned into `_`.
pub open spec fn tier_name(file: Seq<char>) -> Seq<char> {
    let stem = match find_char_from(file, '.', 0) {
        Some(k) => file.subrange(0, k),
        None => file,
    };
    unicode_uppercase(stem).map_values(|c: char| if c == '-' { '_' } else { c })
}

/// Merge all defaults of the files in order (each file's rules in order).
pub open spec fn seed_all(
    existing: Seq<DocView>,
    files: Seq<(Seq<char>, Seq<DocView>)>,
    now: i64,
) -> (Seq<DocView>, bool)
    decreases files.len(),
{
    if files.len() == 0 {
        (existing, false)
    } else {
        let (e1, c1) = seed_file(existing, files[0].1, tier_name(files[0].0), now);
        let (e2, c2) = seed_all(e1, files.drop_first(), now);
        (e2, c1 || c2)
    }
}

pub open spec fn seed_file(existing: Seq<DocView>, rules: Seq<DocView>, tier: Seq<char>, now: i64) -> (Seq<DocView>, bool)
    decreases rules.len(),
{
    if rules.len() == 0 {
        (existing, false)
    } else {
        let (e1, c1) = seed_one(existing, rules[0], tier, now);
        let (e2, c2) = seed_file(e1, rules.drop_first(), tier, now);
        (e2, c1 || c2)
    }
}

fn tier_name_of(file: &str) -> (r: String)
    ensures
        r@ == tier_name(file@),
{
    let fc = chars_of(file);
    proof {
        lemma_find_char_from(fc@, '.', 0);
    }
    let stem = match find_char(fc.as_slice(), '.', 0) {
        Some(k) => slice_chars(fc.as_slice(), 0, k),
        None => slice_chars(fc.as_slice(), 0, fc.len()),
    };
    assert(fc@.subrange(0, fc@.len() as int) =~= fc@);
    let up = to_uppercase(stem.as_slice());
    let mut out: Vec<char> = Vec::new();
    let mut i: usize = 0;
    while i < up.len()
        invariant
            i <= up@.len(),
            out@ == up@.take(i as int).map_values(|c: char| if c == '-' { '_' } else { c }),
        decreases up.len() - i,
    {
        out.push(if up[i] == '-' { '_' } else { up[i] });
        i += 1;
        assert(out@ =~= up@.take(i as int).map_values(|c: char| if c == '-' { '_' } else { c }));
    }
    assert(up@.take(up@.len() as int) =~= up@);
    string_of(out.as_slice())
}

fn find_doc(docs: &Vec<RuleDoc>, id: &String) -> (r: Option<usize>)
    ensures
        match r {
            Some(j) => doc_index(docs_view(docs@), id@, 0) == Some(j as int) && j < docs@.len(),
            None => doc_index(docs_view(docs@), id@, 0) is None,
        },
{
    let ghost dv = docs_view(docs@);
    let idc = chars_of(id.as_str());
    let mut j: usize = 0;
    while j < docs.len()
        invariant
            j <= docs@.len(),
            dv == docs_view(docs@),
            idc@ == id@,
            doc_index(dv, id@, 0) == doc_index(dv, id@, j as int),
        decreases docs.len() - j,
    {
        let hit = match doc_id_of(&docs[j]) {
            Some(s) => str_eq_chars(s.as_str(), idc.as_slice()),
            None => false,
        };
        if hit {
            return Some(j);
        }
        j += 1;
    }
    None
}

fn merge_fields_exec(base: &Vec<(String, FieldValue)>, upd: &Vec<(String, FieldValue)>) -> (r: Vec<
    (String, FieldValue),
>)
    ensures
        fields_view(r@) == merge_fields(fields_view(base@), fields_view(upd@)),
{
    let mut out = copy_fields(base);
    let mut i: usize = 0;
    let ghost u = fields_view(upd@);
    assert(u.skip(0) =~= u);
    while i < upd.len()
        invariant
            i <= upd@.len(),
            u == fields_view(upd@),
            merge_fields(fields_view(base@), u) == merge_fields(fields_view(out@), u.skip(i as int)),
        decreases upd.len() - i,
    {
        assert(u.skip(i as int).drop_first() =~= u.skip(i + 1));
        assert(u.skip(i as int)[0] == u[i as int]);
        set_field_exec(&mut out, upd[i].0.clone(), copy_field(&upd[i].1));
        i += 1;
    }
    assert(u.skip(i as int) =~= Seq::<(Seq<char>, FieldView)>::empty());
    out
}

/// Merge one default rule into `existing` (see [`seed_one`]); returns whether
/// the list changed.
pub fn seed_rule(existing: &mut Vec<RuleDoc>, dr: &RuleDoc, tier: &String, now_ms: i64) -> (changed: bool)
    ensures
        (docs_view(final(existing)@), changed) == seed_one(docs_view(old(existing)@), dr@, tier@, now_ms),
{
    let ghost e0 = docs_view(existing@);
    let id = match doc_id_of(dr) {
        Some(id) => id,
        None => {
            return false;
        },
    };
    let rd = match dr {
        RuleDoc::Object(fs) => {
            let mut f = copy_fields(fs);
            if get_field(&f, "enabled").is_none() {
                set_field_exec(&mut f, text("enabled"), FieldValue::Bool(true));
            }
            set_field_exec(&mut f, text("is_default"), FieldValue::Bool(true));
            set_field_exec(&mut f, text("tier"), FieldValue::Str(tier.clone()));
            set_field_exec(&mut f, text("source"), FieldValue::Str(text("system")));
            set_field_exec(&mut f, text("updated_ms"), FieldValue::Int(now_ms));
            RuleDoc::Object(f)
        },
        RuleDoc::Other(t) => RuleDoc::Other(t.clone()),
    };
    match find_doc(existing, &id) {
        None => {
            let fresh = match rd {
                RuleDoc::Object(mut f) => {
                    set_field_exec(&mut f, text("created_ms"), FieldValue::Int(now_ms));
                    set_field_exec(&mut f, text("created_by"), FieldValue::Str(text("system")));
                    RuleDoc::Object(f)
                },
                RuleDoc::Other(t) => RuleDoc::Other(t),
            };
            let ghost fv = fresh@;
            existing.push(fresh);
            assert(docs_view(existing@) =~= e0.push(fv));
            true
        },
        Some(j) => {
            let def = is_default(&existing[j]);
            let merged = match (&existing[j], &rd) {
                (RuleDoc::Object(old), RuleDoc::Object(upd)) => if def {
                    let m = merge_fields_exec(old, upd);
                    if same_fields_exec(&m, old) {
                        None
                    } else {
                        Some(m)
                    }
                } else {
                    None
                },
                _ => None,
            };
            match merged {
                Some(m) => {
                    let ghost mv = DocView::Object(fields_view(m@));
                    existing.set(j, RuleDoc::Object(m));
                    assert(docs_view(existing@) =~= e0.update(j as int, mv));
                    true
                },
                None => false,
            }
        },
    }
}

/// Merge the default rules of each file (file name, documents) into `existing`,
/// in order; returns whether anything changed.
pub fn seed_defaults(existing: &mut Vec<RuleDoc>, files: &Vec<(String, Vec<RuleDoc>)>, now_ms: i64) -> (changed: bool)
    ensures
        (docs_view(final(existing)@), changed) == seed_all(
            docs_view(old(existing)@),
            files@.map_values(|f: (String, Vec<RuleDoc>)| (f.0@, docs_view(f.1@))),
            now_ms,
        ),
{
    let ghost fv = files@.map_values(|f: (String, Vec<RuleDoc>)| (f.0@, docs_view(f.1@)));
    let ghost e0 = docs_view(existing@);
    let mut changed = false;
    let mut i: usize = 0;
    assert(fv.skip(0) =~= fv);
    while i < files.len()
        invariant
            i <= files@.len(),
            fv == files@.map_values(|f: (String, Vec<RuleDoc>)| (f.0@, docs_view(f.1@))),
            ({
                let (ea, ca) = seed_all(e0, fv, now_ms);
                let (eb, cb) = seed_all(docs_view(existing@), fv.skip(i as int), now_ms);
                ea == eb && ca == (changed || cb)
            }),
        decreases files.len() - i,
    {
        let tier = tier_name_of(files[i].0.as_str());
        let rules = &files[i].1;
        let ghost rv = docs_view(rules@);
        let ghost before = docs_view(existing@);
        let ghost c_before = changed;
        assert(fv.skip(i as int).drop_first() =~= fv.skip(i + 1));
        assert(fv.skip(i as int)[0] == fv[i as int]);
        let mut k: usize = 0;
        let mut file_changed = false;
        assert(rv.skip(0) =~= rv);
        while k < rules.len()
            invariant
                k <= rules@.len(),
                rv == docs_view(rules@),
                ({
                    let (ea, ca) = seed_file(before, rv, tier@, now_ms);
                    let (eb, cb) = seed_file(docs_view(existing@), rv.skip(k as int), tier@, now_ms);
                    ea == eb && ca == (file_changed || cb)
                }),
            decreases rules.len() - k,
        {
            assert(rv.skip(k as int).drop_first() =~= rv.skip(k + 1));
            assert(rv.skip(k as int)[0] == rv[k as int]);
            let c = seed_rule(existing, &rules[k], &tier, now_ms);
            file_changed = file_changed || c;
            k += 1;
        }
        assert(rv.skip(k as int) =~= Seq::<DocView>::empty());
        changed = changed || file_changed;
        i += 1;
    }
    assert(fv.skip(i as int) =~= Seq::<(Seq<char>, Seq<DocView>)>::empty());
    changed
}

} // verus!
