use bangumi_proxy::backend::{
    ech_aborted, ech_unavailable, open_backend, AttemptsEnd, BackendRoute, EchAttempts, EchFailure,
};
use bangumi_proxy::ech::{EchCache, EchStep, IpStep};
use bangumi_proxy::hosts::parse_hosts;
use bangumi_proxy::ipv4::Ipv4Addr;

#[test]
fn routes_backends() {
    let hosts = parse_hosts("1.2.3.4 example.com\n104.16.0.1 bgm.tv");
    assert_eq!(open_backend("example.com", &hosts), BackendRoute::Direct(Some(Ipv4Addr::new(1, 2, 3, 4))));
    assert_eq!(open_backend("other.org", &hosts), BackendRoute::Direct(None));
    assert_eq!(open_backend("bgm.tv", &hosts), BackendRoute::Ech);
    assert_eq!(open_backend("next.bgm.tv", &hosts), BackendRoute::Ech);
}

#[test]
fn ech_is_only_tried_on_cloudflare_addresses() {
    let cf1 = Ipv4Addr::new(104, 16, 0, 1);
    let cf2 = Ipv4Addr::new(172, 64, 0, 1);
    let mut a = EchAttempts::new(vec![Ipv4Addr::new(10, 0, 0, 1), cf1, Ipv4Addr::new(8, 8, 8, 8), cf2]);
    assert_eq!(a.next_ip(), Some(cf1));
    assert_eq!(a.failed(true), EchFailure::TryNext);
    assert_eq!(a.next_ip(), Some(cf2));
    assert_eq!(a.failed(false), EchFailure::Abort);
    assert_eq!(a.next_ip(), None);
    assert!(a.timed_out);
    let mut b = EchAttempts::new(vec![Ipv4Addr::new(127, 0, 0, 1)]);
    assert_eq!(b.next_ip(), None);
    assert!(!b.timed_out);
}

#[test]
fn ech_failure_steps() {
    let mut c = EchCache::new(vec!["8.8.8.8".to_string()], parse_hosts("1.2.3.4 bgm.tv"));
    c.ech_fetched(vec![9]);
    assert_eq!(ech_unavailable(&mut c, "bgm.tv"), Some(Ipv4Addr::new(1, 2, 3, 4)));
    assert!(matches!(c.get_ech(), EchStep::Fetch));
    assert_eq!(ech_unavailable(&mut c, "chii.in"), None);

    let mut c = EchCache::new(vec!["8.8.8.8".to_string()], parse_hosts(""));
    c.ech_fetched(vec![9]);
    c.after_ech("bgm.tv", Some(Ipv4Addr::new(104, 16, 0, 1)));
    ech_aborted(&mut c, "bgm.tv");
    assert!(matches!(c.get_ech(), EchStep::Fetch));
    assert_eq!(c.get_ip("bgm.tv"), IpStep::ResolveViaEch);
}

#[test]
fn exhausted_attempts() {
    let hosts = parse_hosts("1.2.3.4 bgm.tv");
    let mut a = EchAttempts::new(vec![Ipv4Addr::new(8, 8, 8, 8)]);
    assert_eq!(a.next_ip(), None);
    assert_eq!(a.exhausted("bgm.tv", &hosts), AttemptsEnd::Direct(Some(Ipv4Addr::new(1, 2, 3, 4))));
    assert_eq!(a.exhausted("chii.in", &hosts), AttemptsEnd::Direct(None));
    let mut a = EchAttempts::new(vec![Ipv4Addr::new(104, 16, 0, 1), Ipv4Addr::new(104, 16, 0, 2)]);
    assert_eq!(a.next_ip(), Some(Ipv4Addr::new(104, 16, 0, 1)));
    assert_eq!(a.failed(true), EchFailure::TryNext);
    assert_eq!(a.next_ip(), Some(Ipv4Addr::new(104, 16, 0, 2)));
    assert_eq!(a.failed(true), EchFailure::TryNext);
    assert_eq!(a.next_ip(), None);
    assert_eq!(a.exhausted("bgm.tv", &hosts), AttemptsEnd::TimedOut);
}
