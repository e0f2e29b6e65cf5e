//! Where a backend connection goes: a direct TLS connection for other hosts,
//! ECH to Cloudflare addresses for the target hosts.

use vstd::prelude::*;
use vstd::hash_map::StringHashMap;
use crate::ech::EchCache;
use crate::ipv4::Ipv4Addr;
use crate::targets::{is_cloudflare_ip, is_target, spec_is_cloudflare_ip, spec_is_target};

verus! {

/// How the backend for a host is reached.
#[derive(Clone, Copy, Debug, PartialEq, Eq, Structural)]
pub enum BackendRoute {
    /// Direct TLS, to the hosts file's address when it has one, else by name.
    Direct(Option<Ipv4Addr>),
    /// ECH, to the host's resolved Cloudflare addresses.
    Ech,
}

/// The route of the backend connection for `host`: target hosts go by ECH,
/// any other host directly.
pub fn open_backend(host: &str, hosts: &StringHashMap<Ipv4Addr>) -> (r: BackendRoute)
    ensures
        r == (if spec_is_target(host@) {
            BackendRoute::Ech
        } else if hosts@.contains_key(host@) {
            BackendRoute::Direct(Some(hosts@[host@]))
        } else {
            BackendRoute::Direct(None)
        }),
{
    if !is_target(host) {
        return match hosts.get(host) {
            Some(ip) => BackendRoute::Direct(Some(*ip)),
            None => BackendRoute::Direct(None),
        };
    }
    BackendRoute::Ech
}

/// What follows a failed ECH connection.
#[derive(Clone, Copy, Debug, PartialEq, Eq, Structural)]
pub enum EchFailure {
    /// It timed out: the next address is tried.
    TryNext,
    /// Any other error: the cached ECH config and address are dropped and
    /// the error is returned.
    Abort,
}

/// The hosts file's address for `host`, if it names it.
pub open spec fn hosts_address(hosts: Map<Seq<char>, Ipv4Addr>, host: Seq<char>) -> Option<Ipv4Addr> {
    if hosts.contains_key(host) {
        Some(hosts[host])
    } else {
        None
    }
}

/// What follows once no Cloudflare address is left to try.
#[derive(Clone, Copy, Debug, PartialEq, Eq, Structural)]
pub enum AttemptsEnd {
    /// An attempt timed out: the last timeout is the error returned.
    TimedOut,
    /// No ECH attempt was made, as no address is a Cloudflare one: direct
    /// TLS, to the hosts file's address when it names the host.
    Direct(Option<Ipv4Addr>),
}

/// The ECH config list could not be had: the cached list is dropped and the
/// connection falls back to direct TLS, to the hosts file's address when it
/// names the host. The address to connect to is returned.
pub fn ech_unavailable(cache: &mut EchCache, host: &str) -> (r: Option<Ipv4Addr>)
    ensures
        r == hosts_address(old(cache).hosts@, host@),
        final(cache).config is None,
        final(cache).ips@ == old(cache).ips@,
        final(cache).hosts@ == old(cache).hosts@,
        final(cache).dns@ == old(cache).dns@,
{
    cache.invalidate();
    match cache.hosts.get(host) {
        Some(ip) => Some(*ip),
        None => None,
    }
}

/// An ECH attempt failed other than by timing out: the cached ECH config
/// list and the host's cached address are dropped (the error is returned).
pub fn ech_aborted(cache: &mut EchCache, host: &str)
    ensures
        final(cache).config is None,
        final(cache).ips@ == old(cache).ips@.remove(host@),
        final(cache).hosts@ == old(cache).hosts@,
        final(cache).dns@ == old(cache).dns@,
{
    cache.invalidate();
    cache.invalidate_ips(host);
}

/// The ECH connection attempts over a target's addresses, in order, skipping
/// those outside Cloudflare.
pub struct EchAttempts {
    pub ips: Vec<Ipv4Addr>,
    pub pos: usize,
    /// Whether an attempt timed out (its error is the one to report at the end).
    pub timed_out: bool,
}

impl EchAttempts {
    pub fn new(ips: Vec<Ipv4Addr>) -> (a: Self)
        ensures
            a.ips@ == ips@,
            a.pos == 0,
            !a.timed_out,
    {
        EchAttempts { ips, pos: 0, timed_out: false }
    }

    /// The next Cloudflare address to try, or `None` when none is left.
    pub fn next_ip(&mut self) -> (r: Option<Ipv4Addr>)
        requires
            old(self).pos <= old(self).ips.len(),
        ensures
            final(self).ips == old(self).ips,
            final(self).timed_out == old(self).timed_out,
            old(self).pos <= final(self).pos <= final(self).ips.len(),
            match r {
                Some(ip) => final(self).pos > old(self).pos && ip == final(self).ips@[final(self).pos - 1]
                    && spec_is_cloudflare_ip(ip) && forall|k: int|
                    old(self).pos <= k < final(self).pos - 1 ==> !spec_is_cloudflare_ip(
                        #[trigger] final(self).ips@[k],
                    ),
                None => final(self).pos == final(self).ips.len() && forall|k: int|
                    old(self).pos <= k < final(self).ips.len() ==> !spec_is_cloudflare_ip(
                        #[trigger] final(self).ips@[k],
                    ),
            },
    {
        let ghost start = self.pos;
        while self.pos < self.ips.len()
            invariant
                self.ips == old(self).ips,
                self.timed_out == old(self).timed_out,
                start == old(self).pos,
                start <= self.pos <= self.ips.len(),
                forall|k: int| start <= k < self.pos ==> !spec_is_cloudflare_ip(#[trigger] self.ips@[k]),
            decreases self.ips.len() - self.pos,
        {
            let ip = self.ips[self.pos];
            self.pos = self.pos + 1;
            if is_cloudflare_ip(ip) {
                return Some(ip);
            }
        }
        None
    }

    /// Takes a failed attempt: a timeout moves on to the next address, any
    /// other error aborts.
    pub fn failed(&mut self, timed_out: bool) -> (f: EchFailure)
        ensures
            final(self).ips == old(self).ips,
            final(self).pos == old(self).pos,
            timed_out ==> f == EchFailure::TryNext && final(self).timed_out,
            !timed_out ==> f == EchFailure::Abort && final(self).timed_out == old(self).timed_out,
    {
        if timed_out {
            self.timed_out = true;
            EchFailure::TryNext
        } else {
            EchFailure::Abort
        }
    }

    /// What follows when `next_ip` has no address left: the timeout error
    /// when an attempt timed out, else direct TLS to `host`.
    pub fn exhausted(&self, host: &str, hosts: &StringHashMap<Ipv4Addr>) -> (e: AttemptsEnd)
        ensures
            e == (if self.timed_out {
                AttemptsEnd::TimedOut
            } else {
                AttemptsEnd::Direct(hosts_address(hosts@, host@))
            }),
    {
        if self.timed_out {
            AttemptsEnd::TimedOut
        } else {
            match hosts.get(host) {
                Some(ip) => AttemptsEnd::Direct(Some(*ip)),
                None => AttemptsEnd::Direct(None),
            }
        }
    }
}

} // verus!
