use bangumi_proxy::ech::{cf_doh_ip, ech_doh_answer, ech_doh_request, EchCache, EchStep, IpStep, CF_DOH_HOST};
use bangumi_proxy::hosts::parse_hosts;
use bangumi_proxy::ipv4::Ipv4Addr;

#[test]
fn ech_config_is_cached_until_invalidated() {
    let mut c = EchCache::new(vec!["https://doh.pub/dns-query".to_string()], parse_hosts(""));
    assert!(matches!(c.get_ech(), EchStep::Fetch));
    assert_eq!(c.ech_fetched(vec![1, 2, 3]), vec![1, 2, 3]);
    assert!(matches!(c.get_ech(), EchStep::Ready(v) if v == vec![1, 2, 3]));
    c.invalidate();
    assert!(matches!(c.get_ech(), EchStep::Fetch));
}

#[test]
fn hosts_file_comes_first_and_results_are_cached() {
    let mut c = EchCache::new(vec!["8.8.8.8".to_string()], parse_hosts("104.16.0.9 bgm.tv"));
    assert_eq!(c.get_ip("bgm.tv"), IpStep::Done(Ipv4Addr::new(104, 16, 0, 9)));
    assert_eq!(c.get_ip("chii.in"), IpStep::ResolveViaEch);
    let ip = Ipv4Addr::new(172, 64, 0, 1);
    assert_eq!(c.after_ech("chii.in", Some(ip)), IpStep::Done(ip));
    assert_eq!(c.get_ip("chii.in"), IpStep::Done(ip));
    c.invalidate_ips("chii.in");
    assert_eq!(c.get_ip("chii.in"), IpStep::ResolveViaEch);
}

#[test]
fn failed_lookups_fall_through() {
    let mut c = EchCache::new(vec!["8.8.8.8".to_string()], parse_hosts(""));
    assert_eq!(c.after_ech("a.example", None), IpStep::ResolveViaDns);
    assert_eq!(c.after_dns("a.example", None), IpStep::SystemDns);
    assert_eq!(c.after_system("a.example", None), IpStep::Fail);
    let ip = Ipv4Addr::new(9, 9, 9, 9);
    assert_eq!(c.after_system("a.example", Some(ip)), IpStep::Done(ip));
    assert_eq!(c.get_ip("a.example"), IpStep::Done(ip));
}

#[test]
fn poisoned_target_address_is_replaced_by_hosts_entry() {
    let mut c = EchCache::new(vec!["8.8.8.8".to_string()], parse_hosts("104.16.0.9 bgm.tv"));
    let poisoned = Ipv4Addr::new(127, 0, 0, 1);
    assert_eq!(c.after_dns("bgm.tv", Some(poisoned)), IpStep::Done(Ipv4Addr::new(104, 16, 0, 9)));
    assert_eq!(c.after_dns("bgm.tv", None), IpStep::Done(Ipv4Addr::new(104, 16, 0, 9)));
    let mut c = EchCache::new(vec!["8.8.8.8".to_string()], parse_hosts(""));
    assert_eq!(c.after_dns("bgm.tv", Some(poisoned)), IpStep::Done(poisoned));
}

#[test]
fn resolvers_are_kept_in_order() {
    let servers = vec!["https://doh.pub/dns-query".to_string(), "1.1.1.1".to_string()];
    let c = EchCache::new(servers.clone(), parse_hosts(""));
    assert_eq!(c.dns, servers);
}

#[test]
fn doh_over_ech() {
    assert_eq!(CF_DOH_HOST, "cloudflare-dns.com");
    assert_eq!(cf_doh_ip(), Ipv4Addr::new(104, 16, 248, 249));
    assert_eq!(
        ech_doh_request("bgm.tv"),
        "GET /dns-query?name=bgm.tv&type=A HTTP/1.1\r\nHost: cloudflare-dns.com\r\nAccept: application/dns-json\r\nConnection: close\r\n\r\n"
    );
    let resp = b"HTTP/1.1 200 OK\r\nContent-Type: application/dns-json\r\n\r\n{\"Answer\":[{\"data\":\"104.21.8.1\"}]}";
    assert_eq!(ech_doh_answer(resp), Some(Ipv4Addr::new(104, 21, 8, 1)));
    assert_eq!(ech_doh_answer(b"HTTP/1.1 200 OK\r\n"), None);
    let lossy = b"H\r\n\r\n\xff{\"Answer\":[{\"data\":\"1.2.3.4\"}]}";
    assert_eq!(ech_doh_answer(lossy), Some(Ipv4Addr::new(1, 2, 3, 4)));
}
