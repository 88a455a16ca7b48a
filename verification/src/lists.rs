//! IP block and allow lists, with CIDR entries; the allow list wins.
use vstd::prelude::*;

use crate::net::{parse_ip, parse_net_or_host, spec_net_of, spec_parse_ip, IpNetwork, IpValue};

verus! {

/// Whether one of the networks contains the address.
pub open spec fn listed(nets: Seq<IpNetwork>, ip: IpValue) -> bool {
    exists|i: int| 0 <= i < nets.len() && #[trigger] nets[i].spec_contains(ip)
}

/// The list after adding `entry`: its network is appended when `entry` names one.
pub open spec fn spec_with_entry(nets: Seq<IpNetwork>, entry: Seq<char>) -> Seq<IpNetwork> {
    match spec_net_of(entry) {
        Some(n) => nets.push(n),
        None => nets,
    }
}

/// Whether an address text is reported blacklisted: it parses, some blacklist
/// network holds it and no whitelist network does.
pub open spec fn spec_blacklisted(
    black: Seq<IpNetwork>,
    white: Seq<IpNetwork>,
    ip: Seq<char>,
) -> bool {
    match spec_parse_ip(ip) {
        Some(a) => listed(black, a) && !listed(white, a),
        None => false,
    }
}

/// Whether an address text parses and lies in a whitelist network.
pub open spec fn spec_whitelisted(white: Seq<IpNetwork>, ip: Seq<char>) -> bool {
    match spec_parse_ip(ip) {
        Some(a) => listed(white, a),
        None => false,
    }
}

/// Blacklisted and whitelisted networks (single addresses are host networks).
#[derive(Debug, Clone)]
pub struct IpListStore {
    black: Vec<IpNetwork>,
    white: Vec<IpNetwork>,
}

impl IpListStore {
    pub closed spec fn blacklist(&self) -> Seq<IpNetwork> {
        self.black@
    }

    pub closed spec fn whitelist(&self) -> Seq<IpNetwork> {
        self.white@
    }

    /// Every stored network is well formed.
    pub closed spec fn wf(&self) -> bool {
        &&& forall|i: int| 0 <= i < self.black@.len() ==> (#[trigger] self.black@[i]).wf()
        &&& forall|i: int| 0 <= i < self.white@.len() ==> (#[trigger] self.white@[i]).wf()
    }

    /// Empty lists.
    pub fn new() -> (r: Self)
        ensures
            r.wf(),
            r.blacklist() == Seq::<IpNetwork>::empty(),
            r.whitelist() == Seq::<IpNetwork>::empty(),
    {
        IpListStore { black: Vec::new(), white: Vec::new() }
    }

    /// Add an address or CIDR network to the blacklist; `false` (and no change)
    /// when `entry` is neither.
    pub fn add_to_blacklist(&mut self, entry: &str) -> (added: bool)
        requires
            old(self).wf(),
        ensures
            final(self).wf(),
            added == spec_net_of(entry@) is Some,
            final(self).blacklist() == spec_with_entry(old(self).blacklist(), entry@),
            final(self).whitelist() == old(self).whitelist(),
    {
        match parse_net_or_host(entry) {
            Some(n) => {
                self.black.push(n);
                true
            },
            None => false,
        }
    }

    /// Add an address or CIDR network to the whitelist; `false` (and no change)
    /// when `entry` is neither.
    pub fn add_to_whitelist(&mut self, entry: &str) -> (added: bool)
        requires
            old(self).wf(),
        ensures
            final(self).wf(),
            added == spec_net_of(entry@) is Some,
            final(self).whitelist() == spec_with_entry(old(self).whitelist(), entry@),
            final(self).blacklist() == old(self).blacklist(),
    {
        match parse_net_or_host(entry) {
            Some(n) => {
                self.white.push(n);
                true
            },
            None => false,
        }
    }

    fn any_contains(nets: &Vec<IpNetwork>, ip: &IpValue) -> (r: bool)
        requires
            forall|i: int| 0 <= i < nets@.len() ==> (#[trigger] nets@[i]).wf(),
        ensures
            r == listed(nets@, *ip),
    {
        let mut i: usize = 0;
        while i < nets.len()
            invariant
                i <= nets@.len(),
                forall|j: int| 0 <= j < nets@.len() ==> (#[trigger] nets@[j]).wf(),
                forall|j: int| 0 <= j < i ==> !(#[trigger] nets@[j]).spec_contains(*ip),
            decreases nets.len() - i,
        {
            if nets[i].contains(ip) {
                return true;
            }
            i += 1;
        }
        false
    }

    /// Whether `ip` is blacklisted: inside a blacklisted network and inside no
    /// whitelisted one.  A text that is not an address is never blacklisted.
    pub fn is_blacklisted(&self, ip: &str) -> (r: bool)
        requires
            self.wf(),
        ensures
            r == spec_blacklisted(self.blacklist(), self.whitelist(), ip@),
    {
        match parse_ip(ip) {
            Some(a) => Self::any_contains(&self.black, &a) && !Self::any_contains(&self.white, &a),
            None => false,
        }
    }

    /// Whether `ip` lies inside a whitelisted network.
    pub fn is_whitelisted(&self, ip: &str) -> (r: bool)
        requires
            self.wf(),
        ensures
            r == spec_whitelisted(self.whitelist(), ip@),
    {
        match parse_ip(ip) {
            Some(a) => Self::any_contains(&self.white, &a),
            None => false,
        }
    }
}

/// The whitelist overrides the blacklist: an address that is whitelisted is never
/// reported blacklisted, whatever the blacklist holds.
pub proof fn law_whitelist_overrides_blacklist(
    black: Seq<IpNetwork>,
    white: Seq<IpNetwork>,
    ip: Seq<char>,
)
    ensures
        spec_whitelisted(white, ip) ==> !spec_blacklisted(black, white, ip),
{
}

/// Whitelisting an entry carves every address it covers out of the blacklist.
pub proof fn law_whitelisting_carves_out(
    black: Seq<IpNetwork>,
    white: Seq<IpNetwork>,
    entry: Seq<char>,
    ip: Seq<char>,
)
    requires
        spec_net_of(entry) matches Some(n) && spec_parse_ip(ip) matches Some(a) && n.spec_contains(
            a,
        ),
    ensures
        !spec_blacklisted(black, spec_with_entry(white, entry), ip),
{
    let n = spec_net_of(entry)->Some_0;
    let a = spec_parse_ip(ip)->Some_0;
    let w = spec_with_entry(white, entry);
    assert(w[white.len() as int] == n);
    assert(listed(w, a));
}

/// Blacklisting an entry reports every address it covers as blacklisted, unless
/// the address is whitelisted.
pub proof fn law_blacklisting_covers(
    black: Seq<IpNetwork>,
    white: Seq<IpNetwork>,
    entry: Seq<char>,
    ip: Seq<char>,
)
    requires
        spec_net_of(entry) matches Some(n) && spec_parse_ip(ip) matches Some(a) && n.spec_contains(
            a,
        ),
        !spec_whitelisted(white, ip),
    ensures
        spec_blacklisted(spec_with_entry(black, entry), white, ip),
{
    let n = spec_net_of(entry)->Some_0;
    let a = spec_parse_ip(ip)->Some_0;
    let b = spec_with_entry(black, entry);
    assert(b[black.len() as int] == n);
    assert(listed(b, a));
}

/// Makes the IP lists available to the rule engine: once installed, rules can
/// call `ip_in_blacklist(ip)` and `ip_in_whitelist(ip)`, and each request is
/// tagged with the extension `blacklisted` (`true` or `false`).
pub struct BlacklistPlugin {
    pub store: IpListStore,
}

impl BlacklistPlugin {
    pub fn new(store: IpListStore) -> (r: Self)
        ensures
            r.store == store,
    {
        BlacklistPlugin { store }
    }
}

} // verus!
