//! The ECH configuration and address cache, and its resolution decisions.

use vstd::prelude::*;
use vstd::hash_map::StringHashMap;
use vstd::utf8::{decode_utf8, valid_utf8};
use crate::dns::{doh_query_path, doh_request, first_a_record, http_body, spec_http_body, spec_parse_a_records};
use crate::ipv4::Ipv4Addr;
use crate::targets::{is_cloudflare_ip, is_target, spec_is_cloudflare_ip, spec_is_target};

verus! {

/// The outer SNI that ECH connections show.
pub const OUTER_SNI: &'static str = "cloudflare-ech.com";

/// Cloudflare's DNS-over-HTTPS host.
pub const CF_DOH_HOST: &'static str = "cloudflare-dns.com";

/// The address of Cloudflare's DNS-over-HTTPS service (104.16.248.249).
pub fn cf_doh_ip() -> (ip: Ipv4Addr)
    ensures
        ip == (Ipv4Addr { first: 104, second: 16, third: 248, fourth: 249 }),
{
    Ipv4Addr::new(104, 16, 248, 249)
}

/// The cached ECH config list, the addresses resolved so far, the configured
/// resolvers (asked in order), and the addresses of the hosts file.
pub struct EchCache {
    pub config: Option<Vec<u8>>,
    pub ips: StringHashMap<Ipv4Addr>,
    pub dns: Vec<String>,
    pub hosts: StringHashMap<Ipv4Addr>,
}

/// What to do next to get an ECH config list.
#[derive(Debug)]
pub enum EchStep {
    /// The cached list.
    Ready(Vec<u8>),
    /// Nothing cached: resolve the DoH host and fetch a list by GREASE.
    Fetch,
}

/// What to do next to get an address for a host.
#[derive(Clone, Copy, Debug, PartialEq, Eq, Structural)]
pub enum IpStep {
    /// The address.
    Done(Ipv4Addr),
    /// Ask Cloudflare's DoH over an ECH connection.
    ResolveViaEch,
    /// Ask the configured resolver.
    ResolveViaDns,
    /// Ask the system resolver.
    SystemDns,
    /// No address could be had: the system resolver's error stands.
    Fail,
}

/// The address a resolved `ip` gives `host`: an address outside Cloudflare
/// for a target host is taken as poisoned, and the hosts file's address is
/// used instead when it has one.
pub open spec fn accepted_ip(hosts: Map<Seq<char>, Ipv4Addr>, host: Seq<char>, ip: Ipv4Addr) -> Ipv4Addr {
    if !spec_is_cloudflare_ip(ip) && spec_is_target(host) && hosts.contains_key(host) {
        hosts[host]
    } else {
        ip
    }
}

/// The first step of an address lookup for `host`.
pub open spec fn spec_ip_step(
    hosts: Map<Seq<char>, Ipv4Addr>,
    ips: Map<Seq<char>, Ipv4Addr>,
    host: Seq<char>,
) -> IpStep {
    if hosts.contains_key(host) {
        IpStep::Done(hosts[host])
    } else if ips.contains_key(host) {
        IpStep::Done(ips[host])
    } else {
        IpStep::ResolveViaEch
    }
}

/// The hosts file wins: a host it names gets its address from it, whatever
/// was resolved or cached.
pub proof fn law_hosts_file_preferred(
    hosts: Map<Seq<char>, Ipv4Addr>,
    ips: Map<Seq<char>, Ipv4Addr>,
    host: Seq<char>,
    ip: Ipv4Addr,
)
    requires
        hosts.contains_key(host),
    ensures
        spec_ip_step(hosts, ips, host) == IpStep::Done(hosts[host]),
        spec_is_target(host) && !spec_is_cloudflare_ip(ip) ==> accepted_ip(hosts, host, ip) == hosts[host],
{
}

/// A resolved address is cached: the next lookup for the host gives it at
/// once (the hosts file's address when it names the host).
pub proof fn law_resolved_address_is_reused(
    hosts: Map<Seq<char>, Ipv4Addr>,
    ips: Map<Seq<char>, Ipv4Addr>,
    host: Seq<char>,
    ip: Ipv4Addr,
)
    ensures
        spec_ip_step(hosts, ips.insert(host, accepted_ip(hosts, host, ip)), host) == IpStep::Done(
            if hosts.contains_key(host) {
                hosts[host]
            } else {
                ip
            },
        ),
{
}

/// A forgotten address is looked up afresh: after the cache drops a host's
/// address, the next lookup goes through ECH again, unless the hosts file
/// names the host.
pub proof fn law_invalidated_address_is_resolved_again(
    hosts: Map<Seq<char>, Ipv4Addr>,
    ips: Map<Seq<char>, Ipv4Addr>,
    host: Seq<char>,
)
    ensures
        spec_ip_step(hosts, ips.remove(host), host) == (if hosts.contains_key(host) {
            IpStep::Done(hosts[host])
        } else {
            IpStep::ResolveViaEch
        }),
{
}

impl EchCache {
    pub fn new(dns: Vec<String>, hosts: StringHashMap<Ipv4Addr>) -> (c: Self)
        ensures
            c.config is None,
            c.ips@ == Map::<Seq<char>, Ipv4Addr>::empty(),
            c.dns@ == dns@,
            c.hosts@ == hosts@,
    {
        EchCache { config: None, ips: StringHashMap::new(), dns, hosts }
    }

    /// The cached ECH config list, or that one must be fetched.
    pub fn get_ech(&self) -> (s: EchStep)
        ensures
            match s {
                EchStep::Ready(c) => self.config matches Some(k) && c@ == k@,
                EchStep::Fetch => self.config is None,
            },
    {
        match &self.config {
            Some(c) => EchStep::Ready(c.clone()),
            None => EchStep::Fetch,
        }
    }

    /// Caches a fetched ECH config list.
    pub fn ech_fetched(&mut self, config: Vec<u8>) -> (c: Vec<u8>)
        ensures
            final(self).config matches Some(k) && k@ == config@,
            c@ == config@,
            final(self).ips@ == old(self).ips@,
            final(self).hosts@ == old(self).hosts@,
            final(self).dns@ == old(self).dns@,
    {
        let c = config.clone();
        self.config = Some(config);
        c
    }

    /// Drops the cached ECH config list.
    pub fn invalidate(&mut self)
        ensures
            final(self).config is None,
            final(self).ips@ == old(self).ips@,
            final(self).hosts@ == old(self).hosts@,
            final(self).dns@ == old(self).dns@,
    {
        self.config = None;
    }

    /// Forgets the address resolved for `host`.
    pub fn invalidate_ips(&mut self, host: &str)
        ensures
            final(self).ips@ == old(self).ips@.remove(host@),
            final(self).config == old(self).config,
            final(self).hosts@ == old(self).hosts@,
            final(self).dns@ == old(self).dns@,
    {
        self.ips.remove(host);
    }

    /// The first step for `host`: the hosts file's address, else a cached
    /// one, else a lookup through ECH.
    pub fn get_ip(&self, host: &str) -> (s: IpStep)
        ensures
            s == spec_ip_step(self.hosts@, self.ips@, host@),
    {
        if let Some(ip) = self.hosts.get(host) {
            return IpStep::Done(*ip);
        }
        if let Some(ip) = self.ips.get(host) {
            return IpStep::Done(*ip);
        }
        IpStep::ResolveViaEch
    }

    fn accept(&mut self, host: &str, ip: Ipv4Addr) -> (a: Ipv4Addr)
        ensures
            a == accepted_ip(old(self).hosts@, host@, ip),
            final(self).ips@ == old(self).ips@.insert(host@, a),
            final(self).config == old(self).config,
            final(self).hosts@ == old(self).hosts@,
            final(self).dns@ == old(self).dns@,
    {
        if !is_cloudflare_ip(ip) && is_target(host) {
            if let Some(h) = self.hosts.get(host) {
                let hosts_ip = *h;
                self.ips.insert(String::from_str(host), hosts_ip);
                return hosts_ip;
            }
        }
        self.ips.insert(String::from_str(host), ip);
        ip
    }

    /// Takes the outcome of the lookup through ECH: an address is accepted
    /// and cached; otherwise the configured resolver is asked next.
    pub fn after_ech(&mut self, host: &str, r: Option<Ipv4Addr>) -> (s: IpStep)
        ensures
            match r {
                Some(ip) => s == IpStep::Done(accepted_ip(old(self).hosts@, host@, ip))
                    && final(self).ips@ == old(self).ips@.insert(host@, accepted_ip(old(self).hosts@, host@, ip)),
                None => s == IpStep::ResolveViaDns && final(self).ips@ == old(self).ips@,
            },
            final(self).config == old(self).config,
            final(self).hosts@ == old(self).hosts@,
            final(self).dns@ == old(self).dns@,
    {
        match r {
            Some(ip) => IpStep::Done(self.accept(host, ip)),
            None => IpStep::ResolveViaDns,
        }
    }

    /// Takes the outcome of the configured resolver: an address is accepted
    /// and cached; otherwise the hosts file's address is cached and used, and
    /// without one the system resolver is asked.
    pub fn after_dns(&mut self, host: &str, r: Option<Ipv4Addr>) -> (s: IpStep)
        ensures
            match r {
                Some(ip) => s == IpStep::Done(accepted_ip(old(self).hosts@, host@, ip))
                    && final(self).ips@ == old(self).ips@.insert(host@, accepted_ip(old(self).hosts@, host@, ip)),
                None => if old(self).hosts@.contains_key(host@) {
                    s == IpStep::Done(old(self).hosts@[host@])
                        && final(self).ips@ == old(self).ips@.insert(host@, old(self).hosts@[host@])
                } else {
                    s == IpStep::SystemDns && final(self).ips@ == old(self).ips@
                },
            },
            final(self).config == old(self).config,
            final(self).hosts@ == old(self).hosts@,
            final(self).dns@ == old(self).dns@,
    {
        match r {
            Some(ip) => IpStep::Done(self.accept(host, ip)),
            None => {
                if let Some(h) = self.hosts.get(host) {
                    let ip = *h;
                    self.ips.insert(String::from_str(host), ip);
                    IpStep::Done(ip)
                } else {
                    IpStep::SystemDns
                }
            },
        }
    }

    /// Takes the outcome of the system resolver: an address is cached and
    /// used as it is; otherwise the lookup fails.
    pub fn after_system(&mut self, host: &str, r: Option<Ipv4Addr>) -> (s: IpStep)
        ensures
            match r {
                Some(ip) => s == IpStep::Done(ip) && final(self).ips@ == old(self).ips@.insert(host@, ip),
                None => s == IpStep::Fail && final(self).ips@ == old(self).ips@,
            },
            final(self).config == old(self).config,
            final(self).hosts@ == old(self).hosts@,
            final(self).dns@ == old(self).dns@,
    {
        match r {
            Some(ip) => {
                self.ips.insert(String::from_str(host), ip);
                IpStep::Done(ip)
            },
            None => IpStep::Fail,
        }
    }
}

/// The request sent to Cloudflare's DoH over ECH for the A record of `host`.
pub fn ech_doh_request(host: &str) -> (r: String)
    ensures
        r@ == "GET "@ + "/dns-query"@ + "?name="@ + host@ + "&type=A"@ + " HTTP/1.1\r\nHost: "@ + CF_DOH_HOST@
            + "\r\nAccept: application/dns-json\r\nConnection: close\r\n\r\n"@,
{
    let path = doh_query_path("/dns-query", host);
    doh_request(CF_DOH_HOST, path.as_str())
}

/// Text decoded from bytes with each invalid sequence replaced by U+FFFD, as
/// `String::from_utf8_lossy` decodes it.
pub uninterp spec fn utf8_lossy(bytes: Seq<u8>) -> Seq<char>;

/// Decodes bytes as UTF-8, replacing invalid sequences
/// (`String::from_utf8_lossy`); valid UTF-8 decodes as it is.
#[verifier::external_body]
pub(crate) fn utf8_lossy_string(bytes: &[u8]) -> (r: String)
    ensures
        r@ == utf8_lossy(bytes@),
        valid_utf8(bytes@) ==> r@ == decode_utf8(bytes@),
{
    String::from_utf8_lossy(bytes).into_owned()
}

/// The address that a DoH response read over ECH gives: the first A record
/// of its body, decoded leniently; `None` when the response has no blank
/// line or no A record.
pub fn ech_doh_answer(buf: &[u8]) -> (r: Option<Ipv4Addr>)
    ensures
        match spec_http_body(buf@) {
            None => r is None,
            Some(b) => r == (if spec_parse_a_records(utf8_lossy(b)).len() > 0 {
                Some(spec_parse_a_records(utf8_lossy(b))[0])
            } else {
                None
            }),
        },
{
    match http_body(buf) {
        None => None,
        Some(body) => {
            let text = utf8_lossy_string(body.as_slice());
            first_a_record(text.as_str())
        },
    }
}

} // verus!
