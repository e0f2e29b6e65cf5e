use bangumi_proxy::ipv4::Ipv4Addr;
use bangumi_proxy::targets::{ipv4_in_cidr, is_cloudflare_ip, is_target};

#[test]
fn matches_cloudflare_ipv4_ranges() {
    for ip in [
        Ipv4Addr::new(173, 245, 48, 0),
        Ipv4Addr::new(103, 21, 244, 1),
        Ipv4Addr::new(103, 22, 200, 1),
        Ipv4Addr::new(103, 31, 4, 1),
        Ipv4Addr::new(141, 101, 64, 1),
        Ipv4Addr::new(108, 162, 192, 1),
        Ipv4Addr::new(190, 93, 240, 1),
        Ipv4Addr::new(188, 114, 96, 1),
        Ipv4Addr::new(197, 234, 240, 1),
        Ipv4Addr::new(198, 41, 128, 1),
        Ipv4Addr::new(162, 159, 255, 255),
        Ipv4Addr::new(104, 27, 255, 255),
        Ipv4Addr::new(172, 71, 255, 255),
        Ipv4Addr::new(131, 0, 75, 255),
    ] {
        assert!(is_cloudflare_ip(ip), "{} should match", ip.to_string());
    }
}

#[test]
fn rejects_ips_outside_cloudflare_ipv4_ranges() {
    for ip in [
        Ipv4Addr::new(173, 245, 47, 255),
        Ipv4Addr::new(141, 101, 128, 0),
        Ipv4Addr::new(108, 162, 191, 255),
        Ipv4Addr::new(188, 114, 112, 0),
        Ipv4Addr::new(198, 41, 127, 255),
        Ipv4Addr::new(104, 28, 0, 0),
        Ipv4Addr::new(172, 72, 0, 0),
        Ipv4Addr::new(131, 0, 76, 0),
    ] {
        assert!(!is_cloudflare_ip(ip), "{} should not match", ip.to_string());
    }
}

#[test]
fn target_hosts_and_their_subdomains_match() {
    assert!(is_target("bgm.tv"));
    assert!(is_target("chii.in"));
    assert!(is_target("lain.bgm.tv"));
    assert!(is_target("next.bgm.tv"));
    assert!(is_target("api.bgm.tv"));
    assert!(is_target("www.bgm.tv"));
    assert!(is_target("a.b.chii.in"));
}

#[test]
fn other_hosts_do_not_match() {
    assert!(!is_target("xbgm.tv"));
    assert!(!is_target("bgm.tv.example.com"));
    assert!(!is_target("example.com"));
    assert!(!is_target(""));
    assert!(!is_target("tv"));
    assert!(!is_target("BGM.TV"));
}

#[test]
fn cidr_prefix_compares_leading_bits() {
    // 10.0.0.0/8
    assert!(ipv4_in_cidr(0x0A01_0203, 0x0A00_0000, 8));
    assert!(!ipv4_in_cidr(0x0B00_0000, 0x0A00_0000, 8));
    assert!(ipv4_in_cidr(0xFFFF_FFFF, 0xFFFF_FFFF, 32));
    assert!(!ipv4_in_cidr(0xFFFF_FFFE, 0xFFFF_FFFF, 32));
    assert!(ipv4_in_cidr(0x0000_0000, 0x7FFF_FFFF, 1));
    assert!(!ipv4_in_cidr(0x8000_0000, 0x7FFF_FFFF, 1));
}

#[test]
fn cloudflare_range_edges() {
    // 104.16.0.0/13 spans 104.16.0.0 - 104.23.255.255
    assert!(is_cloudflare_ip(Ipv4Addr::new(104, 16, 0, 0)));
    assert!(is_cloudflare_ip(Ipv4Addr::new(104, 23, 255, 255)));
    assert!(is_cloudflare_ip(Ipv4Addr::new(104, 24, 0, 0)));
    assert!(!is_cloudflare_ip(Ipv4Addr::new(104, 15, 255, 255)));
    assert!(is_cloudflare_ip(Ipv4Addr::new(104, 16, 248, 249)));
    assert!(!is_cloudflare_ip(Ipv4Addr::new(8, 8, 8, 8)));
}

#[test]
fn cidr_block_ignores_host_bits_of_network() {
    // 10.11.12.13/8 is the block 10.0.0.0 - 10.255.255.255.
    assert!(ipv4_in_cidr(0x0A00_0000, 0x0A0B_0C0D, 8));
    assert!(ipv4_in_cidr(0x0AFF_FFFF, 0x0A0B_0C0D, 8));
    assert!(!ipv4_in_cidr(0x09FF_FFFF, 0x0A0B_0C0D, 8));
    assert!(!ipv4_in_cidr(0x0B00_0000, 0x0A0B_0C0D, 8));
}
