use netdiag::netutil::{is_locally_administered, is_meaningless_mac, is_private_ipv4, parse_cidr, to_slash24};

fn ip(a: u32, b: u32, c: u32, d: u32) -> u32 {
    (a << 24) | (b << 16) | (c << 8) | d
}

#[test]
fn parses_a_slash_24_and_skips_network_and_broadcast() {
    let cidr = parse_cidr("10.0.3.221/24").unwrap();
    assert_eq!(cidr.canonical(), "10.0.3.0/24");
    assert_eq!(cidr.host_count(), 254);
    assert_eq!(cidr.first, ip(10, 0, 3, 1));
    assert_eq!(cidr.last, ip(10, 0, 3, 254));
}

#[test]
fn refuses_ranges_wider_than_the_cap() {
    let err = parse_cidr("172.17.0.1/16").unwrap_err();
    assert!(err.contains("too large"), "unexpected error: {err}");
}

#[test]
fn slash_31_and_32_have_no_reserved_addresses() {
    assert_eq!(parse_cidr("10.0.0.5/32").unwrap().host_count(), 1);
    assert_eq!(parse_cidr("10.0.0.4/31").unwrap().host_count(), 2);
}

#[test]
fn rejects_malformed_input() {
    assert!(parse_cidr("not-a-cidr").is_err());
    assert!(parse_cidr("10.0.0.1").is_err());
    assert!(parse_cidr("10.0.0.1/33").is_err());
    assert!(parse_cidr("999.0.0.1/24").is_err());
}

#[test]
fn detects_randomized_macs() {
    assert!(is_locally_administered("f6:10:04:1c:20:08"));
    assert!(!is_locally_administered("e0:63:da:82:1b:35"));
}

#[test]
fn recognises_private_space_including_cgnat() {
    assert!(is_private_ipv4(ip(10, 0, 3, 1)));
    assert!(is_private_ipv4(ip(192, 168, 1, 1)));
    assert!(is_private_ipv4(ip(172, 17, 0, 1)));
    assert!(is_private_ipv4(ip(100, 64, 0, 1)));
    assert!(!is_private_ipv4(ip(1, 1, 1, 1)));
}

#[test]
fn derives_the_enclosing_slash_24() {
    assert_eq!(to_slash24(ip(10, 0, 107, 110)), "10.0.107.0/24");
}

#[test]
fn filters_meaningless_macs() {
    assert!(is_meaningless_mac("00:00:00:00:00:00"));
    assert!(is_meaningless_mac("ff:ff:ff:ff:ff:ff"));
    assert!(!is_meaningless_mac("e0:63:da:82:1b:35"));
}

#[test]
fn cidr_errors_name_the_problem() {
    assert_eq!(parse_cidr("10.0.0.1").unwrap_err(), "Invalid CIDR: 10.0.0.1");
    assert_eq!(parse_cidr("10.0.0/24").unwrap_err(), "Invalid IPv4 address in 10.0.0/24");
    assert_eq!(parse_cidr("10.0.0.1/x").unwrap_err(), "Invalid CIDR prefix in 10.0.0.1/x");
}
