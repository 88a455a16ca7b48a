//! The functions that rules call with access to the request: the context
//! built-ins, the IP-list lookups once lists are installed, the CRS results once
//! the CRS is installed; every other name goes to the pure built-ins.
use vstd::prelude::*;

use crate::context::RequestContext;
use crate::crs::target::{headers_named, named_values};
use crate::crs::types::CrsResult;
use crate::grl::ast::{Value, ValueView, values_view};
use crate::grl::functions::{dispatch, spec_arg_str, spec_dispatch};
use crate::lists::{spec_blacklisted, spec_whitelisted, IpListStore};
use crate::rete::working_memory::texts;
use crate::text::{chars_of, starts_with_chars, str_eq_chars, string_of, unicode_lowercase};

verus! {

/// What `name(args)` returns for the request `ctx`, with the installed IP lists
/// and the request's CRS result.
///
/// - `header_count()`: the number of request headers;
/// - `has_header(name)`: whether a header of that (case-insensitive) name is present;
/// - `is_path_under(prefix)`: whether the request path starts with `prefix`;
/// - `ip_in_blacklist(ip)` / `ip_in_whitelist(ip)`: list membership (lists installed);
/// - `crs_score()`: the CRS inbound anomaly score (CRS installed);
/// - `crs_match(tag)`: whether a CRS rule with that tag fired (CRS installed);
/// - anything else: the pure built-ins.
pub open spec fn spec_call(
    name: Seq<char>,
    ctx: RequestContext,
    args: Seq<ValueView>,
    lists: Option<IpListStore>,
    crs: Option<CrsResult>,
) -> ValueView {
    let a0 = spec_arg_str(args, 0);
    if name == "header_count"@ {
        ValueView::Int(ctx.headers@.len() as i64)
    } else if name == "has_header"@ {
        ValueView::Bool(headers_named(ctx.headers@, unicode_lowercase(a0)).len() > 0)
    } else if name == "is_path_under"@ {
        ValueView::Bool(a0.is_prefix_of(ctx.path@))
    } else if name == "ip_in_blacklist"@ && lists is Some {
        ValueView::Bool(spec_blacklisted(lists->Some_0.blacklist(), lists->Some_0.whitelist(), a0))
    } else if name == "ip_in_whitelist"@ && lists is Some {
        ValueView::Bool(spec_whitelisted(lists->Some_0.whitelist(), a0))
    } else if name == "crs_score"@ && crs is Some {
        ValueView::Int(crs->Some_0.inbound_score)
    } else if name == "crs_match"@ && crs is Some {
        ValueView::Bool(texts(crs->Some_0.matched_tags@).contains(a0))
    } else {
        spec_dispatch(name, args)
    }
}

/// The context-aware functions available to rules.
#[derive(Debug)]
pub struct FunctionRegistry {
    ip_lists: Option<IpListStore>,
}

fn is_name(name: &[char], l: &str) -> (r: bool)
    ensures
        r == (name@ == l@),
{
    let v = chars_of(l);
    crate::text::chars_eq(name, v.as_slice())
}

fn first_arg(args: &[Value]) -> (r: String)
    ensures
        r@ == spec_arg_str(values_view(args@), 0),
{
    if args.len() > 0 {
        args[0].as_str()
    } else {
        let e: Vec<char> = Vec::new();
        string_of(e.as_slice())
    }
}

fn has_tag(tags: &Vec<String>, t: &String) -> (r: bool)
    ensures
        r == texts(tags@).contains(t@),
{
    let tc = chars_of(t.as_str());
    let mut i: usize = 0;
    while i < tags.len()
        invariant
            i <= tags@.len(),
            tc@ == t@,
            forall|j: int| 0 <= j < i ==> tags@[j]@ != t@,
        decreases tags.len() - i,
    {
        if str_eq_chars(tags[i].as_str(), tc.as_slice()) {
            assert(texts(tags@)[i as int] == t@);
            return true;
        }
        i += 1;
    }
    proof {
        if texts(tags@).contains(t@) {
            let k = choose|k: int| 0 <= k < texts(tags@).len() && texts(tags@)[k] == t@;
            assert(tags@[k]@ == t@);
        }
    }
    false
}

impl FunctionRegistry {
    /// The installed IP lists, if any.
    pub closed spec fn lists(&self) -> Option<IpListStore> {
        self.ip_lists
    }

    /// The installed IP lists, if any.
    pub fn lists_ref(&self) -> (r: Option<&IpListStore>)
        ensures
            match r {
                Some(s) => self.lists() == Some(*s) && (self.wf() ==> s.wf()),
                None => self.lists() is None,
            },
    {
        match &self.ip_lists {
            Some(s) => Some(s),
            None => None,
        }
    }

    /// Installed lists are well formed.
    pub closed spec fn wf(&self) -> bool {
        self.ip_lists matches Some(s) ==> s.wf()
    }

    /// Only the context built-ins and the pure built-ins.
    pub fn new() -> (r: Self)
        ensures
            r.wf(),
            r.lists() is None,
    {
        FunctionRegistry { ip_lists: None }
    }

    /// Make `ip_in_blacklist` and `ip_in_whitelist` answer from `store`.
    pub fn register_ip_lists(&mut self, store: IpListStore)
        requires
            store.wf(),
        ensures
            final(self).wf(),
            final(self).lists() == Some(store),
    {
        self.ip_lists = Some(store);
    }

    /// Invoke `name` with evaluated `args` for the request `ctx`.
    pub fn call(&self, name: &str, ctx: &RequestContext, args: &[Value], crs: &Option<CrsResult>) -> (r:
        Value)
        requires
            self.wf(),
        ensures
            r@ == spec_call(name@, *ctx, values_view(args@), self.lists(), *crs),
    {
        let n = chars_of(name);
        if is_name(n.as_slice(), "header_count") {
            return Value::Int(ctx.headers.len() as i64);
        }
        if is_name(n.as_slice(), "has_header") {
            let a0 = first_arg(args);
            let vs = named_values(&ctx.headers, a0.as_str());
            return Value::Bool(vs.len() > 0);
        }
        if is_name(n.as_slice(), "is_path_under") {
            let a0 = first_arg(args);
            let p = chars_of(ctx.path.as_str());
            let q = chars_of(a0.as_str());
            return Value::Bool(starts_with_chars(p.as_slice(), q.as_slice()));
        }
        match &self.ip_lists {
            Some(store) => {
                if is_name(n.as_slice(), "ip_in_blacklist") {
                    let a0 = first_arg(args);
                    return Value::Bool(store.is_blacklisted(a0.as_str()));
                }
                if is_name(n.as_slice(), "ip_in_whitelist") {
                    let a0 = first_arg(args);
                    return Value::Bool(store.is_whitelisted(a0.as_str()));
                }
            },
            None => {},
        }
        match crs {
            Some(res) => {
                if is_name(n.as_slice(), "crs_score") {
                    return Value::Int(res.inbound_score);
                }
                if is_name(n.as_slice(), "crs_match") {
                    let a0 = first_arg(args);
                    return Value::Bool(has_tag(&res.matched_tags, &a0));
                }
            },
            None => {},
        }
        dispatch(name, args)
    }
}

} // verus!
