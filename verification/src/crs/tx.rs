//! Per-request CRS transaction state (ModSecurity's `TX:` collection).
use vstd::prelude::*;

use crate::crs::types::{SetVarOp, SetVarRhs, VarOp};
use crate::text::{lower_string, owned, string_eq, unicode_lowercase};

verus! {

/// Value stored under `k` in an association list: the first entry with that key.
pub open spec fn assoc_get<V>(s: Seq<(Seq<char>, V)>, k: Seq<char>) -> Option<V>
    decreases s.len(),
{
    if s.len() == 0 {
        None
    } else if s[0].0 == k {
        Some(s[0].1)
    } else {
        assoc_get(s.drop_first(), k)
    }
}

pub open spec fn num_entries(v: Seq<(String, i64)>) -> Seq<(Seq<char>, i64)> {
    v.map_values(|e: (String, i64)| (e.0@, e.1))
}

pub open spec fn str_entries(v: Seq<(String, String)>) -> Seq<(Seq<char>, Seq<char>)> {
    v.map_values(|e: (String, String)| (e.0@, e.1@))
}

pub proof fn lemma_assoc_skip<V>(s: Seq<(Seq<char>, V)>, k: Seq<char>, i: int)
    requires
        0 <= i < s.len(),
        s[i].0 != k,
    ensures
        assoc_get(s.skip(i), k) == assoc_get(s.skip(i + 1), k),
{
    assert(s.skip(i).drop_first() =~= s.skip(i + 1));
}

pub proof fn lemma_assoc_hit<V>(s: Seq<(Seq<char>, V)>, k: Seq<char>, i: int)
    requires
        0 <= i < s.len(),
        s[i].0 == k,
    ensures
        assoc_get(s.skip(i), k) == Some(s[i].1),
{
}

pub proof fn lemma_assoc_end<V>(s: Seq<(Seq<char>, V)>, k: Seq<char>)
    ensures
        assoc_get(s.skip(s.len() as int), k) is None,
{
    assert(s.skip(s.len() as int) =~= Seq::<(Seq<char>, V)>::empty());
}

/// Replacing the first entry whose key is `k` (or appending one) sets `k` and
/// leaves every other key as it was.
pub proof fn lemma_assoc_update<V>(s: Seq<(Seq<char>, V)>, k: Seq<char>, v: V, i: int, k2: Seq<char>)
    requires
        0 <= i < s.len(),
        s[i].0 == k,
        forall|j: int| 0 <= j < i ==> s[j].0 != k,
    ensures
        assoc_get(s.update(i, (k, v)), k2) == (if k2 == k {
            Some(v)
        } else {
            assoc_get(s, k2)
        }),
    decreases i,
{
    let u = s.update(i, (k, v));
    if i > 0 {
        assert(s[0].0 != k);
        lemma_assoc_update(s.drop_first(), k, v, i - 1, k2);
        assert(u.drop_first() =~= s.drop_first().update(i - 1, (k, v)));
        assert(u[0] == s[0]);
    } else {
        assert(u.drop_first() =~= s.drop_first());
        assert(u[0] == (k, v));
    }
}

pub proof fn lemma_assoc_push<V>(s: Seq<(Seq<char>, V)>, k: Seq<char>, v: V, k2: Seq<char>)
    requires
        assoc_get(s, k) is None,
    ensures
        assoc_get(s.push((k, v)), k2) == (if k2 == k {
            Some(v)
        } else {
            assoc_get(s, k2)
        }),
    decreases s.len(),
{
    let p = s.push((k, v));
    if s.len() > 0 {
        assert(s[0].0 != k);
        lemma_assoc_push(s.drop_first(), k, v, k2);
        assert(p.drop_first() =~= s.drop_first().push((k, v)));
        assert(p[0] == s[0]);
        assert(p.len() > 0);
    } else {
        assert(p.drop_first() =~= Seq::<(Seq<char>, V)>::empty());
        assert(p[0] == (k, v));
        assert(assoc_get(p.drop_first(), k2) is None);
        assert(assoc_get(s, k2) is None);
    }
}

/// The CRS v4 numeric defaults (paranoia level 2, inbound threshold 5).
pub open spec fn default_num_vars() -> Seq<(Seq<char>, i64)> {
    seq![
        ("critical_anomaly_score"@, 5i64),
        ("error_anomaly_score"@, 4i64),
        ("warning_anomaly_score"@, 3i64),
        ("notice_anomaly_score"@, 2i64),
        ("detection_paranoia_level"@, 2i64),
        ("blocking_paranoia_level"@, 2i64),
        ("inbound_anomaly_score_threshold"@, 5i64),
        ("outbound_anomaly_score_threshold"@, 4i64),
        ("inbound_anomaly_score_pl1"@, 0i64),
        ("inbound_anomaly_score_pl2"@, 0i64),
        ("inbound_anomaly_score_pl3"@, 0i64),
        ("inbound_anomaly_score_pl4"@, 0i64),
        ("sql_injection_score"@, 0i64),
        ("xss_score"@, 0i64),
        ("lfi_score"@, 0i64),
        ("rce_score"@, 0i64),
        ("http_violation_score"@, 0i64),
        ("php_injection_score"@, 0i64),
        ("rbl_score"@, 0i64),
        ("session_score"@, 0i64),
        ("arg_name_length"@, 100i64),
        ("arg_length"@, 400i64),
        ("total_arg_length"@, 64000i64),
        ("max_num_args"@, 255i64),
        ("crs_setup_version"@, 400i64),
        ("crs_validate_utf8_encoding"@, 1i64),
    ]
}

/// The CRS default string variables (allowed methods and request content types).
pub open spec fn default_str_vars() -> Seq<(Seq<char>, Seq<char>)> {
    seq![
        ("allowed_methods"@, "GET HEAD POST OPTIONS"@),
        (
            "allowed_request_content_type"@,
            "application/x-www-form-urlencoded|multipart/form-data|multipart/related|text/xml|application/xml|application/soap+xml|application/json|application/cloudevents+json|application/cloudevents-batch+json"@,
        ),
    ]
}

/// Mutable scoring variables for one request evaluation.
pub struct TxState {
    vars: Vec<(String, i64)>,
    /// String-valued TX variables (e.g. `allowed_methods`).
    str_vars: Vec<(String, String)>,
}

impl TxState {
    /// The numeric variable stored under the (already lowercase) name `k`.
    pub closed spec fn num_var(&self, k: Seq<char>) -> Option<i64> {
        assoc_get(num_entries(self.vars@), k)
    }

    /// The string variable stored under the (already lowercase) name `k`.
    pub closed spec fn str_var(&self, k: Seq<char>) -> Option<Seq<char>> {
        assoc_get(str_entries(self.str_vars@), k)
    }

    /// The text `get_str` reports for `var`: the stored string of its lowercase
    /// form, or `""`.
    pub open spec fn spec_get_str(&self, var: Seq<char>) -> Seq<char> {
        match self.str_var(unicode_lowercase(var)) {
            Some(v) => v,
            None => Seq::<char>::empty(),
        }
    }

    /// The value `get` reports for `var`: the stored value of its lowercase form, or 0.
    pub open spec fn spec_get(&self, var: Seq<char>) -> i64 {
        match self.num_var(unicode_lowercase(var)) {
            Some(v) => v,
            None => 0,
        }
    }

    /// Initialise with the CRS v4 defaults.
    pub fn new() -> (r: Self)
        ensures
            forall|k: Seq<char>| #[trigger]
                r.num_var(k) == assoc_get(default_num_vars(), k),
            forall|k: Seq<char>| #[trigger]
                r.str_var(k) == assoc_get(default_str_vars(), k),
    {
        let mut vars: Vec<(String, i64)> = Vec::new();
        vars.push((owned("critical_anomaly_score"), 5));
        vars.push((owned("error_anomaly_score"), 4));
        vars.push((owned("warning_anomaly_score"), 3));
        vars.push((owned("notice_anomaly_score"), 2));
        vars.push((owned("detection_paranoia_level"), 2));
        vars.push((owned("blocking_paranoia_level"), 2));
        vars.push((owned("inbound_anomaly_score_threshold"), 5));
        vars.push((owned("outbound_anomaly_score_threshold"), 4));
        vars.push((owned("inbound_anomaly_score_pl1"), 0));
        vars.push((owned("inbound_anomaly_score_pl2"), 0));
        vars.push((owned("inbound_anomaly_score_pl3"), 0));
        vars.push((owned("inbound_anomaly_score_pl4"), 0));
        vars.push((owned("sql_injection_score"), 0));
        vars.push((owned("xss_score"), 0));
        vars.push((owned("lfi_score"), 0));
        vars.push((owned("rce_score"), 0));
        vars.push((owned("http_violation_score"), 0));
        vars.push((owned("php_injection_score"), 0));
        vars.push((owned("rbl_score"), 0));
        vars.push((owned("session_score"), 0));
        vars.push((owned("arg_name_length"), 100));
        vars.push((owned("arg_length"), 400));
        vars.push((owned("total_arg_length"), 64000));
        vars.push((owned("max_num_args"), 255));
        vars.push((owned("crs_setup_version"), 400));
        vars.push((owned("crs_validate_utf8_encoding"), 1));
        let mut str_vars: Vec<(String, String)> = Vec::new();
        str_vars.push((owned("allowed_methods"), owned("GET HEAD POST OPTIONS")));
        str_vars.push(
            (
                owned("allowed_request_content_type"),
                owned(
                    "application/x-www-form-urlencoded|multipart/form-data|multipart/related|text/xml|application/xml|application/soap+xml|application/json|application/cloudevents+json|application/cloudevents-batch+json",
                ),
            ),
        );
        let r = TxState { vars, str_vars };
        assert(num_entries(r.vars@) =~= default_num_vars());
        assert(str_entries(r.str_vars@) =~= default_str_vars());
        r
    }

    fn find_num(&self, key: &String) -> (r: Option<usize>)
        ensures
            r matches Some(i) ==> i < self.vars@.len() && self.vars@[i as int].0@ == key@
                && forall|j: int| 0 <= j < i ==> self.vars@[j].0@ != key@,
            r is None ==> assoc_get(num_entries(self.vars@), key@) is None,
            r matches Some(i) ==> assoc_get(num_entries(self.vars@), key@) == Some(
                self.vars@[i as int].1,
            ),
    {
        let ghost s = num_entries(self.vars@);
        let mut i: usize = 0;
        assert(s.skip(0) =~= s);
        while i < self.vars.len()
            invariant
                i <= self.vars@.len(),
                s == num_entries(self.vars@),
                forall|j: int| 0 <= j < i ==> self.vars@[j].0@ != key@,
                assoc_get(s, key@) == assoc_get(s.skip(i as int), key@),
            decreases self.vars.len() - i,
        {
            if string_eq(&self.vars[i].0, key) {
                proof {
                    lemma_assoc_hit(s, key@, i as int);
                }
                return Some(i);
            }
            proof {
                lemma_assoc_skip(s, key@, i as int);
            }
            i += 1;
        }
        proof {
            lemma_assoc_end(s, key@);
        }
        None
    }

    fn find_str(&self, key: &String) -> (r: Option<usize>)
        ensures
            r is None ==> assoc_get(str_entries(self.str_vars@), key@) is None,
            r matches Some(i) ==> i < self.str_vars@.len() && assoc_get(
                str_entries(self.str_vars@),
                key@,
            ) == Some(self.str_vars@[i as int].1@),
    {
        let ghost s = str_entries(self.str_vars@);
        let mut i: usize = 0;
        assert(s.skip(0) =~= s);
        while i < self.str_vars.len()
            invariant
                i <= self.str_vars@.len(),
                s == str_entries(self.str_vars@),
                assoc_get(s, key@) == assoc_get(s.skip(i as int), key@),
            decreases self.str_vars.len() - i,
        {
            if string_eq(&self.str_vars[i].0, key) {
                proof {
                    lemma_assoc_hit(s, key@, i as int);
                }
                return Some(i);
            }
            proof {
                lemma_assoc_skip(s, key@, i as int);
            }
            i += 1;
        }
        proof {
            lemma_assoc_end(s, key@);
        }
        None
    }

    /// The value of a TX variable (case-insensitive; 0 if absent).
    pub fn get(&self, var: &str) -> (r: i64)
        ensures
            r == self.spec_get(var@),
    {
        let key = lower_string(var);
        match self.find_num(&key) {
            Some(i) => self.vars[i].1,
            None => 0,
        }
    }

    /// A string TX variable (case-insensitive; `""` if absent).
    pub fn get_str(&self, var: &str) -> (r: String)
        ensures
            r@ == self.spec_get_str(var@),
    {
        let key = lower_string(var);
        match self.find_str(&key) {
            Some(i) => self.str_vars[i].1.clone(),
            None => String::new(),
        }
    }

    /// Store `value` under the lowercase name `key`.
    fn set(&mut self, key: String, value: i64)
        ensures
            forall|k: Seq<char>| #[trigger]
                final(self).num_var(k) == (if k == key@ {
                    Some(value)
                } else {
                    old(self).num_var(k)
                }),
            final(self).str_vars@ == old(self).str_vars@,
    {
        let ghost kv = key@;
        match self.find_num(&key) {
            Some(i) => {
                proof {
                    let s = num_entries(self.vars@);
                    assert forall|k: Seq<char>| #[trigger]
                        assoc_get(s.update(i as int, (kv, value)), k) == (if k == kv {
                            Some(value)
                        } else {
                            assoc_get(s, k)
                        }) by {
                        lemma_assoc_update(s, kv, value, i as int, k);
                    }
                }
                let ghost old_vars = self.vars@;
                self.vars.set(i, (key, value));
                assert(num_entries(self.vars@) =~= num_entries(old_vars).update(
                    i as int,
                    (kv, value),
                ));
            },
            None => {
                proof {
                    let s = num_entries(self.vars@);
                    assert forall|k: Seq<char>| #[trigger]
                        assoc_get(s.push((kv, value)), k) == (if k == kv {
                            Some(value)
                        } else {
                            assoc_get(s, k)
                        }) by {
                        lemma_assoc_push(s, kv, value, k);
                    }
                }
                let ghost old_vars = self.vars@;
                self.vars.push((key, value));
                assert(num_entries(self.vars@) =~= num_entries(old_vars).push((kv, value)));
            },
        }
    }

    /// The value a `setvar` operation writes, given the variable's current value
    /// and the right-hand side's value.
    pub open spec fn spec_setvar_result(op: VarOp, current: i64, rhs: i64) -> int {
        match op {
            VarOp::Assign => rhs as int,
            VarOp::IncrBy => current + rhs,
            VarOp::DecrBy => current - rhs,
        }
    }

    /// The value of a `setvar` right-hand side in this state.
    pub open spec fn spec_rhs(&self, rhs: SetVarRhs) -> i64 {
        match rhs {
            SetVarRhs::Int(n) => n,
            SetVarRhs::TxRef(r) => self.spec_get(r@),
        }
    }

    /// The current value of the variable a `setvar` writes (0 when unset).
    pub open spec fn spec_target_value(&self, op: SetVarOp) -> i64 {
        match self.num_var(unicode_lowercase(op.var@)) {
            Some(v) => v,
            None => 0,
        }
    }

    /// `after` is this state with `op` applied: the variable `op` names holds the
    /// result of the operation, every other variable is unchanged.
    pub open spec fn spec_applies(&self, op: SetVarOp, after: TxState) -> bool {
        &&& forall|k: Seq<char>| #[trigger]
            after.num_var(k) == (if k == unicode_lowercase(op.var@) {
                Some(
                    Self::spec_setvar_result(
                        op.op,
                        self.spec_target_value(op),
                        self.spec_rhs(op.rhs),
                    ) as i64,
                )
            } else {
                self.num_var(k)
            })
        &&& forall|k: Seq<char>| #[trigger] after.str_var(k) == self.str_var(k)
    }

    /// Apply a `setvar` operation.  The arithmetic must stay within `i64`.
    pub fn apply(&mut self, op: &SetVarOp)
        requires
            i64::MIN <= Self::spec_setvar_result(
                op.op,
                old(self).spec_target_value(*op),
                old(self).spec_rhs(op.rhs),
            ) <= i64::MAX,
        ensures
            old(self).spec_applies(*op, *final(self)),
    {
        let rhs = match &op.rhs {
            SetVarRhs::Int(n) => *n,
            SetVarRhs::TxRef(r) => self.get(r.as_str()),
        };
        let key = lower_string(op.var.as_str());
        let current = match self.find_num(&key) {
            Some(i) => self.vars[i].1,
            None => 0,
        };
        let value = match op.op {
            VarOp::Assign => rhs,
            VarOp::IncrBy => current + rhs,
            VarOp::DecrBy => current - rhs,
        };
        self.set(key, value);
    }

    /// The sum `inbound_score` reports.
    pub open spec fn spec_inbound_score(&self) -> int {
        self.spec_get("inbound_anomaly_score_pl1"@) + self.spec_get("inbound_anomaly_score_pl2"@)
            + self.spec_get("inbound_anomaly_score_pl3"@) + self.spec_get(
            "inbound_anomaly_score_pl4"@,
        )
    }

    /// Sum of the inbound anomaly scores of the four paranoia levels (which must
    /// fit in an `i64`).
    pub fn inbound_score(&self) -> (r: i64)
        requires
            i64::MIN <= self.spec_inbound_score() <= i64::MAX,
        ensures
            r == self.spec_inbound_score(),
    {
        let a = self.get("inbound_anomaly_score_pl1");
        let b = self.get("inbound_anomaly_score_pl2");
        let c = self.get("inbound_anomaly_score_pl3");
        let d = self.get("inbound_anomaly_score_pl4");
        let ab = a as i128 + b as i128;
        let cd = c as i128 + d as i128;
        (ab + cd) as i64
    }
}

/// A `setvar` that assigns a literal is read back by `get` on the same name.
pub proof fn law_assign_then_get(before: TxState, after: TxState, op: SetVarOp, n: i64)
    requires
        op.op == VarOp::Assign,
        op.rhs == SetVarRhs::Int(n),
        before.spec_applies(op, after),
    ensures
        after.spec_get(op.var@) == n,
{
    assert(after.num_var(unicode_lowercase(op.var@)) == Some(n));
}

/// A `setvar` that increments adds its right-hand side to the current value.
pub proof fn law_increment_adds(before: TxState, after: TxState, op: SetVarOp)
    requires
        op.op == VarOp::IncrBy,
        before.spec_applies(op, after),
        i64::MIN <= before.spec_get(op.var@) + before.spec_rhs(op.rhs) <= i64::MAX,
    ensures
        after.spec_get(op.var@) == before.spec_get(op.var@) + before.spec_rhs(op.rhs),
{
    assert(after.num_var(unicode_lowercase(op.var@)) is Some);
}

/// After a `setvar`, `get` on any name with the lowercase form of the one it
/// writes reads the operation's result: the right-hand side (read before the
/// update, so `x=+%{tx.x}` doubles `x`), or the previous value plus or minus it.
pub proof fn law_setvar_then_get(before: TxState, after: TxState, op: SetVarOp, name: Seq<char>)
    requires
        before.spec_applies(op, after),
        unicode_lowercase(name) == unicode_lowercase(op.var@),
        i64::MIN <= TxState::spec_setvar_result(op.op, before.spec_get(op.var@), before.spec_rhs(op.rhs))
            <= i64::MAX,
    ensures
        after.spec_get(name) == TxState::spec_setvar_result(
            op.op,
            before.spec_get(name),
            before.spec_rhs(op.rhs),
        ),
{
    assert(after.num_var(unicode_lowercase(op.var@)) is Some);
}

/// A `setvar` changes no numeric variable but the one it names, and no string
/// variable at all.
pub proof fn law_setvar_frames_other_vars(
    before: TxState,
    after: TxState,
    op: SetVarOp,
    other: Seq<char>,
)
    requires
        before.spec_applies(op, after),
    ensures
        unicode_lowercase(other) != unicode_lowercase(op.var@) ==> after.spec_get(other)
            == before.spec_get(other),
        after.spec_get_str(other) == before.spec_get_str(other),
{
    assert(after.num_var(unicode_lowercase(other)) == before.num_var(unicode_lowercase(other))
        || unicode_lowercase(other) == unicode_lowercase(op.var@));
    assert(after.str_var(unicode_lowercase(other)) == before.str_var(unicode_lowercase(other)));
}

/// Variable names are case-insensitive: names with the same lowercase form read
/// the same value.
pub proof fn law_get_case_insensitive(tx: TxState, a: Seq<char>, b: Seq<char>)
    requires
        unicode_lowercase(a) == unicode_lowercase(b),
    ensures
        tx.spec_get(a) == tx.spec_get(b),
{
}

} // verus!
