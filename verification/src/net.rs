//! Daemon addresses.
use vstd::prelude::*;

use crate::text::{
    cut_at_last, decimal, owned, parse_number, parsed, rsplit_once, same, strip_leading_str,
    to_decimal, trim_start_str,
};

verus! {

broadcast use vstd::string::group_string_axioms;

/// A daemon address.
pub struct DaemonAddr {
    pub host: String,
    pub port: u16,
}

/// What a daemon address says.
#[verifier::ext_equal]
pub struct AddrView {
    pub host: Seq<char>,
    pub port: u16,
}

impl DaemonAddr {
    pub open spec fn view(self) -> AddrView {
        AddrView { host: self.host@, port: self.port }
    }

    /// A copy of the address.
    pub fn copied(&self) -> (r: DaemonAddr)
        ensures
            r@ == self@,
    {
        DaemonAddr { host: self.host.clone(), port: self.port }
    }
}

/// The views of a list of addresses.
pub open spec fn addr_views(v: Seq<DaemonAddr>) -> Seq<AddrView> {
    v.map_values(|a: DaemonAddr| a@)
}

/// A host that stands for every interface of a machine.
pub open spec fn is_wildcard(host: Seq<char>) -> bool {
    host.len() == 0 || host == "0.0.0.0"@ || host == "::"@ || host == "[::]"@
}

/// Where a daemon that recorded `host` is reached.
pub open spec fn reached_host(host: Option<Seq<char>>) -> Seq<char> {
    match host {
        Some(h) => if is_wildcard(h) {
            "127.0.0.1"@
        } else {
            h
        },
        None => "127.0.0.1"@,
    }
}

/// Wildcard binds (`0.0.0.0` / `::`) and unnamed hosts are reached via loopback.
pub fn normalize_host(host: Option<&str>) -> (r: String)
    ensures
        r@ == reached_host(crate::version::opt_view(host)),
{
    match host {
        Some(h) => if h.is_empty() || same(h, "0.0.0.0") || same(h, "::") || same(h, "[::]") {
            owned("127.0.0.1")
        } else {
            owned(h)
        },
        None => owned("127.0.0.1"),
    }
}

/// A host that means this machine.
pub open spec fn is_loopback(host: Seq<char>) -> bool {
    host == "127.0.0.1"@ || host == "localhost"@ || host == "::1"@ || host == "[::1]"@
}

/// True for hosts that mean "this machine".
pub fn is_loopback_host(host: &str) -> (r: bool)
    ensures
        r == is_loopback(host@),
{
    same(host, "127.0.0.1") || same(host, "localhost") || same(host, "::1") || same(host, "[::1]")
}

/// `host:port`.
pub open spec fn host_port(addr: AddrView) -> Seq<char> {
    addr.host + ":"@ + decimal(addr.port as nat)
}

/// `http://host:port`.
pub open spec fn base_url(addr: AddrView) -> Seq<char> {
    "http://"@ + host_port(addr)
}

/// Writes an address as `host:port`.
pub fn host_port_text(addr: &DaemonAddr) -> (r: String)
    ensures
        r@ == host_port(addr@),
{
    let mut out = addr.host.clone();
    out.append(":");
    out.append(to_decimal(addr.port as u64).as_str());
    out
}

/// Writes an address as a base URL.
pub fn base_text(addr: &DaemonAddr) -> (r: String)
    ensures
        r@ == base_url(addr@),
{
    let mut out = owned("http://");
    out.append(host_port_text(addr).as_str());
    out
}

/// The address that a base URL names: what stands before and after its last colon.
pub open spec fn addr_of(base: Seq<char>) -> Option<AddrView> {
    match rsplit_once(trim_start_str(base, "http://"@), ':') {
        Some((host, port)) => match parsed(port, u16::MAX as nat) {
            Some(n) => Some(AddrView { host, port: n as u16 }),
            None => None,
        },
        None => None,
    }
}

/// Reads the address of a daemon from its base URL.
pub fn current_addr(base: &str) -> (r: Option<DaemonAddr>)
    ensures
        match r {
            Some(a) => addr_of(base@) == Some(a@),
            None => addr_of(base@) is None,
        },
{
    let host_part = strip_leading_str(base, "http://");
    match cut_at_last(host_part.as_str(), ':') {
        Some((host, port)) => match parse_number(port.as_str(), u16::MAX as u32) {
            Some(n) => Some(DaemonAddr { host, port: n as u16 }),
            None => None,
        },
        None => None,
    }
}

/// Normalizing a host never leaves a wildcard, and keeps a host that is none.
pub proof fn normalized_hosts_are_reachable(host: Option<Seq<char>>)
    ensures
        !is_wildcard(reached_host(host)),
        reached_host(Some(reached_host(host))) == reached_host(host),
        host matches Some(h) ==> (!is_wildcard(h) ==> reached_host(host) == h),
{
    reveal_strlit("127.0.0.1");
    reveal_strlit("0.0.0.0");
    reveal_strlit("::");
    reveal_strlit("[::]");
    assert("127.0.0.1"@[0] == '1');
    assert("0.0.0.0"@[0] == '0');
}

/// Reading back a written base URL gives the address, for every host that does
/// not itself start with a scheme.
pub proof fn base_url_reads_back(addr: AddrView)
    requires
        !"http://"@.is_prefix_of(addr.host),
    ensures
        addr_of(base_url(addr)) == Some(addr),
{
    let http = "http://"@;
    let rest = host_port(addr);
    let digits = decimal(addr.port as nat);
    reveal_strlit("http://");
    reveal_strlit(":");
    crate::text::lemma_decimal_value(addr.port as nat);
    assert(http.len() == 7);
    assert(base_url(addr).subrange(0, 7) =~= http);
    assert(base_url(addr).skip(7) =~= rest);
    assert(!http.is_prefix_of(rest)) by {
        if http.is_prefix_of(rest) {
            let n = addr.host.len() as int;
            if n >= 7 {
                assert(http =~= addr.host.subrange(0, 7)) by {
                    assert forall|i: int| 0 <= i < 7 implies http[i] == addr.host[i] by {
                        assert(http[i] == rest[i]);
                    }
                }
            } else if n == 6 {
                assert(http[6] == rest[6]);
            } else {
                // The first digit of the port stands where the scheme has a letter or a slash.
                assert(rest[n + 1] == digits[0]);
                assert(http[n + 1] == rest[n + 1]);
                assert(crate::text::is_digit(digits[0]));
            }
        }
    }
    assert(trim_start_str(rest, http) == rest);
    assert(trim_start_str(base_url(addr), http) == rest);
    crate::text::lemma_rfind_char_bounds(rest, ':');
    let i = crate::text::rfind_char(rest, ':');
    let n = addr.host.len() as int;
    assert(rest[n] == ':');
    if i > n {
        assert(rest[i] == digits[i - n - 1]);
        assert(crate::text::is_digit(digits[i - n - 1]));
    }
    assert(i == n);
    assert(rest.take(n) =~= addr.host);
    assert(rest.skip(n + 1) =~= digits);
    crate::text::decimal_reads_back(addr.port as nat, u16::MAX as nat);
}

/// Only an unnamed host and the three wildcard binds are reached via loopback;
/// every other host is reached under its own name.
pub proof fn only_wildcards_are_redirected(host: Seq<char>)
    ensures
        host.len() > 0 && host != "0.0.0.0"@ && host != "::"@ && host != "[::]"@ ==> reached_host(
            Some(host),
        ) == host,
        host.len() == 0 || host == "0.0.0.0"@ || host == "::"@ || host == "[::]"@ ==> reached_host(
            Some(host),
        ) == "127.0.0.1"@,
        reached_host(None) == "127.0.0.1"@,
{
}

/// This machine goes by four names and no other.
pub proof fn this_machine_has_four_names(host: Seq<char>)
    ensures
        is_loopback(host) <==> host == "127.0.0.1"@ || host == "localhost"@ || host == "::1"@ || host
            == "[::1]"@,
{
}

/// An address is written as its host, a colon and its port in decimal, behind the
/// scheme in a base URL.
pub proof fn addresses_are_written_in_full(addr: AddrView)
    ensures
        host_port(addr) == addr.host + ":"@ + decimal(addr.port as nat),
        base_url(addr) == "http://"@ + addr.host + ":"@ + decimal(addr.port as nat),
{
    assert(base_url(addr) =~= "http://"@ + addr.host + ":"@ + decimal(addr.port as nat));
}

/// Whatever base an address is read from, it ends in the port behind a colon, and
/// the host stands before that colon, behind schemes at most.
pub proof fn read_addresses_stand_in_the_base(base: Seq<char>, addr: AddrView)
    requires
        addr_of(base) == Some(addr),
    ensures
        exists|digits: Seq<char>|
            (#[trigger] addr.host.push(':') + digits).is_suffix_of(base) && parsed(
                digits,
                u16::MAX as nat,
            ) == Some(addr.port as nat),
{
    let rest = trim_start_str(base, "http://"@);
    crate::text::last_cut_joins_back(rest, ':');
    lemma_scheme_cut(base, "http://"@);
    let (host, digits) = rsplit_once(rest, ':')->0;
    assert(rest == addr.host.push(':') + digits);
}

proof fn lemma_scheme_cut(s: Seq<char>, p: Seq<char>)
    ensures
        trim_start_str(s, p).is_suffix_of(s),
    decreases s.len(),
{
    if p.len() > 0 && p.is_prefix_of(s) {
        lemma_scheme_cut(s.skip(p.len() as int), p);
    }
}

/// An address, and a list of them, is viewed as what it holds, in order.
pub proof fn addresses_are_viewed_as_they_are(v: Seq<DaemonAddr>, i: int)
    requires
        0 <= i < v.len(),
    ensures
        addr_views(v).len() == v.len(),
        addr_views(v)[i].host == v[i].host@,
        addr_views(v)[i].port == v[i].port,
{
}

} // verus!
