use bangumi_proxy::ipv4::{ipv4_as_u32, parse_ipv4, Ipv4Addr};

#[test]
fn parses_dotted_decimal() {
    assert_eq!(parse_ipv4("104.16.248.249"), Some(Ipv4Addr::new(104, 16, 248, 249)));
    assert_eq!(parse_ipv4("0.0.0.0"), Some(Ipv4Addr::new(0, 0, 0, 0)));
    assert_eq!(parse_ipv4("255.255.255.255"), Some(Ipv4Addr::new(255, 255, 255, 255)));
    assert_eq!(parse_ipv4("1.2.3.4"), Some(Ipv4Addr::new(1, 2, 3, 4)));
}

#[test]
fn rejects_malformed_addresses() {
    for s in [
        "", "1.2.3", "1.2.3.4.5", "256.1.1.1", "1.2.3.04", "01.2.3.4", "1..3.4", "1.2.3.4 ", " 1.2.3.4",
        "a.b.c.d", "1.2.3.-4", "+1.2.3.4", "1.2.3.4.", "1000.1.1.1", "::1", "1.2.3.4:53",
    ] {
        assert_eq!(parse_ipv4(s), None, "{s:?} should not parse");
    }
}

#[test]
fn formats_and_round_trips() {
    let ip = Ipv4Addr::new(10, 0, 100, 255);
    assert_eq!(ip.to_string(), "10.0.100.255");
    assert_eq!(parse_ipv4(&ip.to_string()), Some(ip));
    for ip in [Ipv4Addr::new(0, 9, 99, 199), Ipv4Addr::new(1, 10, 100, 200)] {
        assert_eq!(parse_ipv4(&ip.to_string()), Some(ip));
    }
}

#[test]
fn packs_big_endian() {
    assert_eq!(ipv4_as_u32(173, 245, 48, 0), 0xADF5_3000);
    assert_eq!(Ipv4Addr::new(1, 2, 3, 4).to_u32(), 0x0102_0304);
    assert_eq!(Ipv4Addr::new(1, 2, 3, 4).octets(), [1, 2, 3, 4]);
}
