//! The Bangumi target hosts and the Cloudflare IPv4 ranges.

use vstd::prelude::*;
use crate::ipv4::Ipv4Addr;
use vstd::arithmetic::div_mod::{lemma_fundamental_div_mod, lemma_mod_bound};
use vstd::arithmetic::power2::{lemma_pow2_pos, pow2};
use vstd::bits::lemma_u32_shr_is_div;
use crate::text::{chars_of, chars_eq, chars_ends_with};

verus! {

/// The hosts that the proxy handles itself; their subdomains are handled too.
pub const TARGETS: [&'static str; 5] = ["chii.in", "lain.bgm.tv", "bgm.tv", "next.bgm.tv", "api.bgm.tv"];

/// Cloudflare's published IPv4 ranges: the network's four octets and the
/// prefix length.
pub const CLOUDFLARE_IPV4_CIDRS: [(u8, u8, u8, u8, u8); 15] = [
    (173, 245, 48, 0, 20),
    (103, 21, 244, 0, 22),
    (103, 22, 200, 0, 22),
    (103, 31, 4, 0, 22),
    (141, 101, 64, 0, 18),
    (108, 162, 192, 0, 18),
    (190, 93, 240, 0, 20),
    (188, 114, 96, 0, 20),
    (197, 234, 240, 0, 22),
    (198, 41, 128, 0, 17),
    (162, 158, 0, 0, 15),
    (104, 16, 0, 0, 13),
    (104, 24, 0, 0, 14),
    (172, 64, 0, 0, 13),
    (131, 0, 72, 0, 22),
];

/// `host` is the target itself or one of its subdomains.
pub open spec fn host_matches(host: Seq<char>, target: Seq<char>) -> bool {
    host == target || (seq!['.'] + target).is_suffix_of(host)
}

pub open spec fn spec_is_target(host: Seq<char>) -> bool {
    exists|i: int| 0 <= i < 5 && #[trigger] host_matches(host, TARGETS@[i]@)
}

/// Whether `host` is one of the target hosts or a subdomain of one.
pub fn is_target(host: &str) -> (r: bool)
    ensures
        r == spec_is_target(host@),
{
    let h = chars_of(host);
    let mut i: usize = 0;
    while i < 5
        invariant
            h@ == host@,
            i <= 5,
            forall|k: int| 0 <= k < i ==> !#[trigger] host_matches(host@, TARGETS@[k]@),
        decreases 5 - i,
    {
        let t = chars_of(TARGETS[i]);
        let mut dotted: Vec<char> = Vec::new();
        dotted.push('.');
        let mut j: usize = 0;
        while j < t.len()
            invariant
                j <= t.len(),
                dotted@ == seq!['.'] + t@.take(j as int),
            decreases t.len() - j,
        {
            dotted.push(t[j]);
            j = j + 1;
            assert(dotted@ =~= seq!['.'] + t@.take(j as int));
        }
        assert(t@.take(t.len() as int) =~= t@);
        if chars_eq(h.as_slice(), t.as_slice()) || chars_ends_with(h.as_slice(), dotted.as_slice()) {
            assert(host_matches(host@, TARGETS@[i as int]@));
            return true;
        }
        i = i + 1;
    }
    false
}

/// Every subdomain of a target host is a target host: `label.target`
/// matches whatever the label is.
pub proof fn law_subdomains_are_targets(label: Seq<char>, i: int)
    requires
        0 <= i < 5,
    ensures
        spec_is_target(label + seq!['.'] + TARGETS@[i]@),
{
    let t = TARGETS@[i]@;
    let h = label + seq!['.'] + t;
    let d = seq!['.'] + t;
    assert(h.subrange(h.len() - d.len(), h.len() as int) =~= d);
    assert(host_matches(h, t));
}

/// The leading `prefix` bits of `ip` and `network` agree.
pub open spec fn spec_in_cidr(ip: u32, network: u32, prefix: u8) -> bool {
    ip >> ((32 - prefix) as u32) == network >> ((32 - prefix) as u32)
}

pub open spec fn range_network(r: (u8, u8, u8, u8, u8)) -> u32 {
    crate::ipv4::octets_value(r.0, r.1, r.2, r.3) as u32
}

pub open spec fn spec_is_cloudflare_ip(ip: Ipv4Addr) -> bool {
    exists|i: int|
        0 <= i < 15 && #[trigger] spec_in_cidr(
            ip.value() as u32,
            range_network(CLOUDFLARE_IPV4_CIDRS@[i]),
            CLOUDFLARE_IPV4_CIDRS@[i].4,
        )
}

/// Whether `ip` lies in one of Cloudflare's IPv4 ranges.
pub fn is_cloudflare_ip(ip: Ipv4Addr) -> (r: bool)
    ensures
        r == spec_is_cloudflare_ip(ip),
{
    let v = ip.to_u32();
    let mut i: usize = 0;
    while i < 15
        invariant
            v as int == ip.value(),
            i <= 15,
            forall|k: int|
                0 <= k < i ==> !#[trigger] spec_in_cidr(
                    v,
                    range_network(CLOUDFLARE_IPV4_CIDRS@[k]),
                    CLOUDFLARE_IPV4_CIDRS@[k].4,
                ),
        decreases 15 - i,
    {
        let (a, b, c, d, prefix) = CLOUDFLARE_IPV4_CIDRS[i];
        let network = crate::ipv4::ipv4_as_u32(a, b, c, d);
        assert(13 <= prefix <= 22);
        assert(network == range_network(CLOUDFLARE_IPV4_CIDRS@[i as int]));
        assert(prefix == CLOUDFLARE_IPV4_CIDRS@[i as int].4);
        if ipv4_in_cidr(v, network, prefix) {
            assert(spec_in_cidr(ip.value() as u32, range_network(CLOUDFLARE_IPV4_CIDRS@[i as int]), CLOUDFLARE_IPV4_CIDRS@[i as int].4));
            return true;
        }
        i = i + 1;
    }
    false
}

/// The first address of the block of `2^(32 - prefix)` addresses that
/// holds `network`.
pub open spec fn block_start(network: u32, prefix: u8) -> int {
    ((network as nat / pow2((32 - prefix) as nat)) * pow2((32 - prefix) as nat)) as int
}

/// A CIDR range is a block of addresses: `ip` is in `network/prefix` exactly
/// when it lies between the block's first address and the next block's.
pub proof fn law_cidr_is_address_block(ip: u32, network: u32, prefix: u8)
    requires
        1 <= prefix <= 32,
    ensures
        spec_in_cidr(ip, network, prefix) <==> block_start(network, prefix) <= ip < block_start(network, prefix)
            + pow2((32 - prefix) as nat),
{
    let s: u32 = (32 - prefix) as u32;
    lemma_u32_shr_is_div(ip, s);
    lemma_u32_shr_is_div(network, s);
    let d = pow2(s as nat) as int;
    lemma_pow2_pos(s as nat);
    let q = network as int / d;
    let k = ip as int / d;
    let r = ip as int % d;
    lemma_fundamental_div_mod(ip as int, d);
    lemma_mod_bound(ip as int, d);
    assert(block_start(network, prefix) == q * d);
    if k == q {
        assert(q * d <= ip < q * d + d) by (nonlinear_arith)
            requires
                ip == d * k + r,
                0 <= r < d,
                k == q,
        ;
    }
    if q * d <= ip < q * d + d {
        assert(k == q) by (nonlinear_arith)
            requires
                ip == d * k + r,
                0 <= r < d,
                q * d <= ip < q * d + d,
                d > 0,
        ;
    }
}

/// Whether the leading `prefix` bits of `ip` and `network` agree.
pub fn ipv4_in_cidr(ip: u32, network: u32, prefix: u8) -> (r: bool)
    requires
        1 <= prefix <= 32,
    ensures
        r == spec_in_cidr(ip, network, prefix),
{
    let shift: u32 = (32 - prefix) as u32;
    let mask = u32::MAX << shift;
    let r = (ip & mask) == (network & mask);
    assert(r == (ip >> shift == network >> shift)) by (bit_vector)
        requires
            shift < 32,
            mask == u32::MAX << shift,
            r == ((ip & mask) == (network & mask)),
    ;
    r
}

} // verus!
