use bangumi_proxy::ipv4::Ipv4Addr;
use bangumi_proxy::proxy::{
    connect_addr, connect_host, connect_mode, content_length, ends_head, forward_head, is_connect,
    parse_request_line, relay_action, request_host, request_path, ConnectMode, ReadOutcome, RelayAction,
};

fn h(v: &[&str]) -> Vec<String> {
    v.iter().map(|s| s.to_string()).collect()
}

#[test]
fn host_of_absolute_and_origin_form_requests() {
    let none: Vec<String> = vec![];
    assert_eq!(request_host("http://bgm.tv/subject/1", &none), "bgm.tv");
    assert_eq!(request_host("http://bgm.tv:8080/x", &none), "bgm.tv");
    assert_eq!(request_host("http://bgm.tv", &none), "bgm.tv");
    let headers = h(&["Accept: */*", "HOST:  chii.in  ", "Host: other"]);
    assert_eq!(request_host("/index", &headers), "chii.in");
    let headers = h(&["host: bgm.tv:8080"]);
    assert_eq!(request_host("/", &headers), "bgm.tv");
    assert_eq!(request_host("/", &none), "");
    assert_eq!(request_host("/", &h(&["hostname"])), "");
}

#[test]
fn path_of_requests() {
    assert_eq!(request_path("http://bgm.tv/subject/1?x=1"), "/subject/1?x=1");
    assert_eq!(request_path("http://bgm.tv"), "/");
    assert_eq!(request_path("/already"), "/already");
    assert_eq!(request_path("https://bgm.tv/x"), "https://bgm.tv/x");
}

#[test]
fn content_length_of_headers() {
    assert_eq!(content_length(&h(&["Content-Length: 42"])), 42);
    assert_eq!(content_length(&h(&["content-length:7", "Content-Length: 9"])), 7);
    assert_eq!(content_length(&h(&["Content-Length: +5"])), 5);
    assert_eq!(content_length(&h(&["Content-Length: x"])), 0);
    assert_eq!(content_length(&h(&["Content-Length: -1"])), 0);
    assert_eq!(content_length(&h(&["Content-Type: text/plain"])), 0);
    assert_eq!(content_length(&h(&["Content-Length"])), 0);
}

#[test]
fn forwards_the_head_without_proxy_headers() {
    let headers = h(&["Host: bgm.tv", "Proxy-Connection: keep-alive", "Accept: */*", "proxy-authenticate: x"]);
    assert_eq!(
        forward_head("GET", "/a", &headers),
        "GET /a HTTP/1.1\r\nHost: bgm.tv\r\nAccept: */*\r\n\r\n"
    );
    assert_eq!(forward_head("POST", "/", &h(&[])), "POST / HTTP/1.1\r\n\r\n");
}

#[test]
fn request_lines() {
    assert_eq!(parse_request_line("GET http://bgm.tv/ HTTP/1.1"), Some(("GET", "http://bgm.tv/")));
    assert_eq!(parse_request_line("  GET   /x  "), Some(("GET", "/x")));
    assert_eq!(parse_request_line("GET"), None);
    assert!(is_connect("CONNECT bgm.tv:443 HTTP/1.1"));
    assert!(is_connect("connect bgm.tv:443 HTTP/1.1"));
    assert!(!is_connect("GET / HTTP/1.1"));
    assert!(!is_connect(""));
    assert_eq!(connect_host("CONNECT bgm.tv:443 HTTP/1.1"), "bgm.tv");
    assert_eq!(connect_host("CONNECT [::1]:443 HTTP/1.1"), "[::1]");
    assert_eq!(connect_host("CONNECT bgm.tv HTTP/1.1"), "bgm.tv");
    assert_eq!(connect_host("CONNECT"), "");
}

#[test]
fn connect_modes_and_addresses() {
    assert_eq!(connect_mode("lain.bgm.tv"), ConnectMode::Mitm);
    assert_eq!(connect_mode("example.com"), ConnectMode::Tunnel);
    assert_eq!(connect_addr("bgm.tv", None), "bgm.tv:443");
    assert_eq!(connect_addr("bgm.tv", Some(Ipv4Addr::new(104, 16, 1, 2))), "104.16.1.2:443");
}

#[test]
fn head_end_and_relay() {
    assert!(ends_head("\r\n"));
    assert!(ends_head(""));
    assert!(!ends_head("Host: x\r\n"));
    assert_eq!(relay_action(ReadOutcome::Data(5)), RelayAction::Forward(5));
    assert_eq!(relay_action(ReadOutcome::Data(0)), RelayAction::Stop);
    assert_eq!(relay_action(ReadOutcome::WouldBlock), RelayAction::Continue);
    assert_eq!(relay_action(ReadOutcome::Failed), RelayAction::Stop);
}
