use bangumi_proxy::dns::{
    dns_query, doh_addresses, doh_endpoint, doh_json_text, doh_query_path, doh_request, first_a_record,
    http_body, is_doh, is_plain_dns, parse_a_records, parse_dns_answer, plain_server, server_kind, skip_name,
    DnsError, MultiResolver, PlainServer, ResolveFailure, ResolveQuery, ServerKind, DNS_TXID,
};
use bangumi_proxy::ipv4::Ipv4Addr;

const ANSWER: &str = r#"{"Status":0,"Question":[{"name":"bgm.tv","type":1}],"Answer":[{"name":"bgm.tv","type":1,"TTL":300,"data":"104.21.8.1"},{"name":"bgm.tv","type":1,"TTL":300,"data":"172.67.1.2"},{"name":"bgm.tv","type":1,"TTL":300,"data":"104.21.8.1"}]}"#;

#[test]
fn reads_a_records_in_order_without_repeats() {
    assert_eq!(
        parse_a_records(ANSWER),
        vec![Ipv4Addr::new(104, 21, 8, 1), Ipv4Addr::new(172, 67, 1, 2)]
    );
    assert_eq!(first_a_record(ANSWER), Some(Ipv4Addr::new(104, 21, 8, 1)));
}

#[test]
fn skips_data_that_is_not_an_address() {
    let json = r#"{"Answer":[{"type":5,"data":"bgm.tv.cdn.cloudflare.net."},{"type":1,"data":"1.2.3.4"}]}"#;
    assert_eq!(parse_a_records(json), vec![Ipv4Addr::new(1, 2, 3, 4)]);
}

#[test]
fn no_answer_section_gives_no_records() {
    assert_eq!(parse_a_records(r#"{"Status":3,"data":"1.2.3.4"}"#), vec![]);
    assert_eq!(parse_a_records(""), vec![]);
    assert_eq!(first_a_record(r#"{"Status":3}"#), None);
    assert_eq!(doh_addresses(r#"{"Answer":[]}"#), Err(DnsError::NoARecord));
    assert_eq!(doh_addresses(ANSWER).unwrap().len(), 2);
}

#[test]
fn data_before_the_answer_key_is_ignored_and_unclosed_data_ends_the_scan() {
    let json = r#"{"data":"9.9.9.9","Answer":[{"data":"1.1.1.1"},{"data":"2.2.2.2"#;
    assert_eq!(parse_a_records(json), vec![Ipv4Addr::new(1, 1, 1, 1)]);
}

#[test]
fn builds_the_query_packet() {
    let pkt = dns_query(0x1234, "bgm.tv");
    let mut want = vec![0x12, 0x34, 1, 0, 0, 1, 0, 0, 0, 0, 0, 0];
    want.extend_from_slice(&[3, b'b', b'g', b'm', 2, b't', b'v', 0, 0, 1, 0, 1]);
    assert_eq!(pkt, want);
    let pkt = dns_query(DNS_TXID, "a.b.");
    assert_eq!(&pkt[12..], &[1, b'a', 1, b'b', 0, 0, 0, 1, 0, 1]);
}

fn answer_packet(txid: u16, answers: &[(u16, &[u8])]) -> Vec<u8> {
    let mut p = vec![(txid >> 8) as u8, txid as u8, 0x81, 0x80, 0, 1, 0, answers.len() as u8, 0, 0, 0, 0];
    p.extend_from_slice(&[3, b'b', b'g', b'm', 2, b't', b'v', 0, 0, 1, 0, 1]);
    for (ty, data) in answers {
        p.extend_from_slice(&[0xC0, 12]);
        p.extend_from_slice(&[(ty >> 8) as u8, *ty as u8, 0, 1, 0, 0, 1, 0x2C]);
        p.extend_from_slice(&[0, data.len() as u8]);
        p.extend_from_slice(data);
    }
    p
}

#[test]
fn reads_the_first_a_record_of_an_answer() {
    let cname: &[u8] = &[3, b'c', b'd', b'n', 0];
    let p = answer_packet(0x1234, &[(5, cname), (1, &[104, 21, 8, 1]), (1, &[1, 1, 1, 1])]);
    assert_eq!(parse_dns_answer(&p, 0x1234), Ok(Ipv4Addr::new(104, 21, 8, 1)));
}

#[test]
fn answer_errors() {
    let p = answer_packet(0x1234, &[(1, &[1, 2, 3, 4])]);
    assert_eq!(parse_dns_answer(&p, 0x4321), Err(DnsError::BadResponse));
    assert_eq!(parse_dns_answer(&p[..11], 0x1234), Err(DnsError::BadResponse));
    let p = answer_packet(0x1234, &[(28, &[0; 16])]);
    assert_eq!(parse_dns_answer(&p, 0x1234), Err(DnsError::NoARecord));
    let p = answer_packet(0x1234, &[]);
    assert_eq!(parse_dns_answer(&p, 0x1234), Err(DnsError::NoARecord));
    let mut p = vec![0x12, 0x34, 0, 0, 0, 1, 0, 1, 0, 0, 0, 0];
    p.push(5);
    assert_eq!(parse_dns_answer(&p, 0x1234), Err(DnsError::NameOverflow));
}

#[test]
fn skips_names() {
    assert_eq!(skip_name(&[3, b'a', b'b', b'c', 0, 9], 0), Ok(5));
    assert_eq!(skip_name(&[0xC0, 0x0C], 0), Ok(2));
    assert_eq!(skip_name(&[1, b'a', 0xC0, 0x0C], 0), Ok(4));
    assert_eq!(skip_name(&[3, b'a'], 0), Err(DnsError::NameOverflow));
    assert_eq!(skip_name(&[], 0), Err(DnsError::NameOverflow));
}

#[test]
fn classifies_resolvers() {
    assert!(is_doh("https://doh.pub/dns-query"));
    assert!(is_doh("http://x"));
    assert!(!is_doh("1.1.1.1"));
    assert!(is_plain_dns("1.1.1.1"));
    assert!(is_plain_dns("dns.example:53"));
    assert!(!is_plain_dns("dns.example"));
    assert_eq!(server_kind("https://doh.pub/dns-query"), ServerKind::Doh);
    assert_eq!(server_kind("8.8.8.8"), ServerKind::Plain);
    assert_eq!(server_kind("dns.example"), ServerKind::Unknown);
}

#[test]
fn splits_doh_urls() {
    let (h, p) = doh_endpoint("https://doh.pub/dns-query");
    assert_eq!((h.as_str(), p.as_str()), ("doh.pub", "/dns-query"));
    let (h, p) = doh_endpoint("https://cloudflare-dns.com");
    assert_eq!((h.as_str(), p.as_str()), ("cloudflare-dns.com", "/dns-query"));
    let (h, p) = doh_endpoint("http://a.b/x/y?z");
    assert_eq!((h.as_str(), p.as_str()), ("a.b", "/x/y?z"));
    assert_eq!(doh_query_path("/dns-query", "bgm.tv"), "/dns-query?name=bgm.tv&type=A");
    assert_eq!(
        doh_request("doh.pub", "/q"),
        "GET /q HTTP/1.1\r\nHost: doh.pub\r\nAccept: application/dns-json\r\nConnection: close\r\n\r\n"
    );
}

#[test]
fn takes_http_bodies() {
    assert_eq!(http_body(b"HTTP/1.1 200 OK\r\nA: b\r\n\r\nbody\r\n\r\nmore"), Some(b"body\r\n\r\nmore".to_vec()));
    assert_eq!(http_body(b"HTTP/1.1 200 OK\r\n"), None);
    assert_eq!(doh_json_text(b"H\r\n\r\n{}").unwrap(), "{}");
    assert_eq!(doh_json_text(b"H\r\n"), Err(DnsError::NoHeaderEnd));
    assert_eq!(doh_json_text(b"H\r\n\r\n\xff"), Err(DnsError::NotUtf8));
}

#[test]
fn plain_servers() {
    assert_eq!(plain_server("8.8.8.8"), PlainServer::Address("8.8.8.8".to_string()));
    assert_eq!(plain_server("dns.google"), PlainServer::Lookup("dns.google:53".to_string()));
}

#[test]
fn resolver_walk_returns_first_answer() {
    let servers = vec!["https://doh.pub/dns-query".to_string(), "8.8.8.8".to_string()];
    let mut walk: MultiResolver<&str> = MultiResolver::new(&servers);
    assert_eq!(walk.next_query(), Some(ResolveQuery::Doh(0)));
    assert_eq!(walk.doh_result(Err("timeout")), None);
    assert_eq!(walk.next_query(), Some(ResolveQuery::Plain(1)));
    let ip = Ipv4Addr::new(1, 2, 3, 4);
    assert_eq!(walk.plain_result(Ok(ip)), Some(vec![ip]));
}

#[test]
fn resolver_walk_tries_both_ways_for_unknown_servers_and_keeps_last_error() {
    let servers = vec!["dns.example".to_string()];
    let mut walk: MultiResolver<&str> = MultiResolver::new(&servers);
    assert_eq!(walk.next_query(), Some(ResolveQuery::Doh(0)));
    assert_eq!(walk.doh_result(Err("doh failed")), None);
    assert_eq!(walk.next_query(), Some(ResolveQuery::Plain(0)));
    assert_eq!(walk.plain_result(Err("plain failed")), None);
    assert_eq!(walk.next_query(), None);
    assert!(matches!(walk.finish(), ResolveFailure::Failed("plain failed")));
}

#[test]
fn resolver_walk_without_answers() {
    let servers = vec!["https://doh.pub/dns-query".to_string()];
    let mut walk: MultiResolver<&str> = MultiResolver::new(&servers);
    assert_eq!(walk.doh_result(Ok(vec![])), None);
    assert_eq!(walk.next_query(), None);
    assert!(matches!(walk.finish(), ResolveFailure::NoARecord));
    let empty: Vec<String> = vec![];
    let walk: MultiResolver<&str> = MultiResolver::new(&empty);
    assert_eq!(walk.next_query(), None);
    assert!(matches!(walk.finish(), ResolveFailure::NoARecord));
}

#[test]
fn skipping_the_question_name_of_a_query() {
    let pkt = dns_query(0x1234, "lain.bgm.tv");
    // 4 "lain" 3 "bgm" 2 "tv" 0: the name ends at 12 + 13.
    assert_eq!(skip_name(&pkt, 12), Ok(25));
    assert_eq!(&pkt[25..29], &[0, 1, 0, 1]);
}
