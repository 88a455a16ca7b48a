//! IP addresses and networks as plain integers.
use vstd::prelude::*;

verus! {

/// An IP address: its family and its bits (IPv4 in the low 32 bits).
#[derive(Debug, Clone, Copy, PartialEq, Eq)]
pub struct IpValue {
    pub v6: bool,
    pub bits: u128,
}

/// An IP network (`ipnet::IpNet`): address, prefix length and family.
#[derive(Debug, Clone, Copy, PartialEq, Eq)]
pub struct IpNetwork {
    pub v6: bool,
    pub bits: u128,
    pub prefix: u8,
}

/// Address width in bits.
pub open spec fn width(v6: bool) -> nat {
    if v6 {
        128
    } else {
        32
    }
}

impl IpNetwork {
    pub open spec fn wf(self) -> bool {
        &&& self.prefix as nat <= width(self.v6)
        &&& !self.v6 ==> self.bits < 0x1_0000_0000
    }

    /// Whether `ip` lies between the network's first and last address
    /// (the same family, and the same first `prefix` bits).
    pub open spec fn spec_contains(self, ip: IpValue) -> bool {
        let s = (width(self.v6) - self.prefix as nat) as nat;
        &&& self.v6 == ip.v6
        &&& (self.prefix == 0 || (ip.bits >> (s as u128)) == (self.bits >> (s as u128)))
    }

    /// `IpNet::contains(&IpAddr)`.
    pub fn contains(&self, ip: &IpValue) -> (r: bool)
        requires
            self.wf(),
        ensures
            r == self.spec_contains(*ip),
    {
        if self.v6 != ip.v6 {
            return false;
        }
        if self.prefix == 0 {
            return true;
        }
        let w: u8 = if self.v6 { 128 } else { 32 };
        let s: u8 = w - self.prefix;
        (ip.bits >> (s as u128)) == (self.bits >> (s as u128))
    }
}

/// What `str::parse` reads from `s` as an IP address.
pub uninterp spec fn spec_parse_ip(s: Seq<char>) -> Option<IpValue>;

/// What `str::parse::<ipnet::IpNet>` reads from `s` (address and prefix length).
pub uninterp spec fn spec_parse_ipnet(s: Seq<char>) -> Option<IpNetwork>;

/// `s.parse::<IpAddr>().ok()`, as plain values (read back through `ipnet::IpNet::new`).  An IPv4 address is
/// returned in the low 32 bits.
#[verifier::external_body]
pub(crate) fn parse_ip(s: &str) -> (r: Option<IpValue>)
    ensures
        r == spec_parse_ip(s@),
        r matches Some(ip) ==> (!ip.v6 ==> ip.bits < 0x1_0000_0000),
{
    match s.parse() {
        Ok(a) => match ipnet::IpNet::new(a, 0) {
            Ok(ipnet::IpNet::V4(n)) => Some(IpValue { v6: false, bits: u32::from(n.addr()) as u128 }),
            Ok(ipnet::IpNet::V6(n)) => Some(IpValue { v6: true, bits: u128::from(n.addr()) }),
            Err(_) => None,
        },
        Err(_) => None,
    }
}

/// `s.parse::<ipnet::IpNet>().ok()`, as plain values.  The prefix length of a
/// parsed network never exceeds the family's width.
#[verifier::external_body]
pub(crate) fn parse_ipnet(s: &str) -> (r: Option<IpNetwork>)
    ensures
        r == spec_parse_ipnet(s@),
        r matches Some(n) ==> n.wf(),
{
    match s.parse::<ipnet::IpNet>() {
        Ok(ipnet::IpNet::V4(n)) => Some(
            IpNetwork { v6: false, bits: u32::from(n.addr()) as u128, prefix: n.prefix_len() },
        ),
        Ok(ipnet::IpNet::V6(n)) => Some(
            IpNetwork { v6: true, bits: u128::from(n.addr()), prefix: n.prefix_len() },
        ),
        Err(_) => None,
    }
}

/// The network named by `s`: a CIDR network, or a single address as a host network
/// (`/32` or `/128`).
pub open spec fn spec_net_of(s: Seq<char>) -> Option<IpNetwork> {
    match spec_parse_ipnet(s) {
        Some(n) => Some(n),
        None => match spec_parse_ip(s) {
            Some(ip) => Some(
                IpNetwork { v6: ip.v6, bits: ip.bits, prefix: if ip.v6 { 128 } else { 32 } },
            ),
            None => None,
        },
    }
}

/// Parse a network or a bare address (a host network).
pub fn parse_net_or_host(s: &str) -> (r: Option<IpNetwork>)
    ensures
        r == spec_net_of(s@),
        r matches Some(n) ==> n.wf(),
{
    match parse_ipnet(s) {
        Some(n) => Some(n),
        None => match parse_ip(s) {
            Some(ip) => Some(
                IpNetwork { v6: ip.v6, bits: ip.bits, prefix: if ip.v6 { 128 } else { 32 } },
            ),
            None => None,
        },
    }
}

} // verus!
