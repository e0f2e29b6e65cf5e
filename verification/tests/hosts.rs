use bangumi_proxy::hosts::parse_hosts;
use bangumi_proxy::ipv4::Ipv4Addr;

#[test]
fn reads_hosts_files() {
    let text = "# comment\r\n104.16.123.1 bgm.tv chii.in\r\n104.16.123.2 lain.bgm.tv Next.BGM.tv # trailing\n\nnot-an-ip host.example\n   \n1.2.3.4\n";
    let m = parse_hosts(text);
    assert_eq!(m.len(), 4);
    assert_eq!(m.get("bgm.tv"), Some(&Ipv4Addr::new(104, 16, 123, 1)));
    assert_eq!(m.get("chii.in"), Some(&Ipv4Addr::new(104, 16, 123, 1)));
    assert_eq!(m.get("lain.bgm.tv"), Some(&Ipv4Addr::new(104, 16, 123, 2)));
    assert_eq!(m.get("next.bgm.tv"), Some(&Ipv4Addr::new(104, 16, 123, 2)));
    assert_eq!(m.get("host.example"), None);
}

#[test]
fn later_lines_win() {
    let m = parse_hosts("1.1.1.1 a\n2.2.2.2 a");
    assert_eq!(m.get("a"), Some(&Ipv4Addr::new(2, 2, 2, 2)));
    assert!(parse_hosts("").is_empty());
}
