use netdiag::scan::hostinfo::{build_targets, classify, is_virtual_interface, mask_to_prefix, preview_targets, validate_range, parse_resolv_conf};
use netdiag::scan::netbios::{build_query, encode_netbios_name, parse_response, transaction_id};
use netdiag::types::{InterfaceInfo, Ipv4Addr4, TargetSource};

fn iface(name: &str, ip: &str, cidr: u8, state: &str) -> InterfaceInfo {
    InterfaceInfo {
        name: name.into(),
        state: state.into(),
        mac: None,
        mtu: None,
        flags: Vec::new(),
        ipv4: vec![Ipv4Addr4 { address: ip.into(), cidr }],
        ipv6: Vec::new(),
        is_primary: false,
        scannable: false,
        skip_reason: None,
    }
}

#[test]
fn excludes_docker_bridges_and_loopback_but_keeps_the_real_link() {
    let mut interfaces = vec![
        iface("lo", "127.0.0.1", 8, "UNKNOWN"),
        iface("wlo1", "10.0.3.221", 24, "UP"),
        iface("docker0", "172.17.0.1", 16, "DOWN"),
    ];
    let mut warnings = Vec::new();
    classify(&mut interfaces, "wlo1", &mut warnings);
    assert!(!interfaces[0].scannable, "loopback must never be scanned");
    assert!(interfaces[1].scannable);
    assert!(interfaces[1].is_primary);
    assert!(!interfaces[2].scannable, "a /16 docker bridge would be 65k hosts");
    assert!(warnings.iter().any(|w| w.contains("docker0")));
}

#[test]
fn builds_local_targets_from_scannable_interfaces_only() {
    let mut interfaces = vec![iface("wlo1", "10.0.3.221", 24, "UP"), iface("docker0", "172.17.0.1", 16, "DOWN")];
    let mut warnings = Vec::new();
    classify(&mut interfaces, "wlo1", &mut warnings);
    let targets = build_targets(&interfaces, &Vec::new(), &mut warnings);
    assert_eq!(targets.len(), 1);
    assert_eq!(targets[0].cidr, "10.0.3.0/24");
    assert_eq!(targets[0].host_count, 254);
}

#[test]
fn refuses_public_ranges_and_oversized_prefixes() {
    assert!(validate_range("8.8.8.0/24").unwrap_err().contains("private"));
    assert!(validate_range("10.0.0.0/8").unwrap_err().contains("too large"));
    assert_eq!(validate_range("192.168.1.50/24").unwrap(), "192.168.1.0/24");
}

#[test]
fn invalid_manual_ranges_become_warnings_not_failures() {
    let interfaces: Vec<InterfaceInfo> = Vec::new();
    let mut warnings = Vec::new();
    let targets = build_targets(&interfaces, &vec!["not-a-cidr".into()], &mut warnings);
    assert!(targets.is_empty());
    assert_eq!(warnings.len(), 1);
    assert!(warnings[0].contains("Ignoring range"));
}

#[test]
fn converts_netmasks_to_prefix_lengths() {
    assert_eq!(mask_to_prefix(0xFFFF_FF00), 24);
    assert_eq!(mask_to_prefix(0xFFFF_0000), 16);
    assert_eq!(mask_to_prefix(0xFFFF_FFFC), 30);
}

#[test]
fn a_manual_range_repeating_a_local_one_is_listed_once() {
    let mut interfaces = vec![iface("eth0", "10.0.3.5", 24, "UP")];
    let mut warnings = Vec::new();
    classify(&mut interfaces, "", &mut warnings);
    let targets = build_targets(&interfaces, &vec!["10.0.3.9/24".into(), "10.0.4.0/24".into()], &mut warnings);
    assert_eq!(targets.len(), 2);
    assert_eq!(targets[0].source, TargetSource::Local);
    assert_eq!(targets[0].note.as_deref(), Some("local subnet on eth0"));
    assert_eq!(targets[1].cidr, "10.0.4.0/24");
    assert_eq!(targets[1].source, TargetSource::Manual);
    assert!(warnings.is_empty());
}

#[test]
fn previewing_classifies_before_building() {
    let interfaces = vec![iface("lo", "127.0.0.1", 8, "UNKNOWN"), iface("wlo1", "10.0.3.221", 24, "UP")];
    let targets = preview_targets(interfaces, &vec!["10.0.9.0/24".into()]);
    let cidrs: Vec<&str> = targets.iter().map(|t| t.cidr.as_str()).collect();
    assert_eq!(cidrs, vec!["10.0.3.0/24", "10.0.9.0/24"]);
}

#[test]
fn virtual_interfaces_are_recognised_by_prefix() {
    assert!(is_virtual_interface("docker0"));
    assert!(is_virtual_interface("veth12ab"));
    assert!(is_virtual_interface("wg0"));
    assert!(!is_virtual_interface("eth0"));
    assert!(!is_virtual_interface("wlo1"));
}

#[test]
fn a_down_link_and_a_wide_subnet_are_skipped_with_reasons() {
    let mut interfaces = vec![iface("eth1", "10.0.5.2", 24, "DOWN"), iface("eth2", "10.8.0.2", 16, "UP")];
    let mut warnings = Vec::new();
    classify(&mut interfaces, "", &mut warnings);
    assert_eq!(interfaces[0].skip_reason.as_deref(), Some("link down"));
    assert_eq!(interfaces[1].skip_reason.as_deref(), Some("subnet wider than /22"));
    assert_eq!(warnings, vec!["Skipping eth2 \u{2014} its subnet is wider than /22 and would be too large to sweep"]);
}

#[test]
fn encodes_the_wildcard_name_per_rfc1001() {
    let encoded = encode_netbios_name("*");
    assert_eq!(encoded[0], 32, "length prefix");
    assert_eq!(&encoded[1..3], b"CK", "'*' is 0x2A -> 'C','K'");
    assert!(encoded[3..33].iter().all(|b| *b == b'A'), "NUL padding encodes to 'A'");
    assert_eq!(encoded[33], 0, "null terminator");
}

#[test]
fn the_node_status_query_asks_for_the_wildcard_name() {
    let q = build_query(0x1234);
    assert_eq!(q.len(), 50);
    assert_eq!(&q[..6], &[0x12, 0x34, 0, 0, 0, 1]);
    assert_eq!(&q[12..14], &[32, b'C']);
    assert_eq!(&q[46..], &[0, 0x21, 0, 1]);
    assert_eq!(transaction_id(0x0001_0002), 0x0003);
}

#[test]
fn parses_a_node_status_response() {
    let mut buf = vec![0u8; 12 + 34 + 4 + 34 + 2 + 2 + 4 + 2];
    buf.push(2);
    let mut entry = |name: &str, suffix: u8, group: bool| {
        let mut padded = [b' '; 15];
        for (i, b) in name.bytes().take(15).enumerate() {
            padded[i] = b;
        }
        buf.extend_from_slice(&padded);
        buf.push(suffix);
        let flags: u16 = if group { 0x8000 } else { 0x0400 };
        buf.extend_from_slice(&flags.to_be_bytes());
    };
    entry("NAS01", 0x20, false);
    entry("WORKGROUP", 0x00, true);
    buf.extend_from_slice(&[0x00, 0x11, 0x22, 0x33, 0x44, 0x55]);

    let result = parse_response(&buf).expect("should parse");
    assert_eq!(result.names, vec!["NAS01".to_string()]);
    assert_eq!(result.workgroup.as_deref(), Some("WORKGROUP"));
    assert_eq!(result.mac.as_deref(), Some("00:11:22:33:44:55"));
}

#[test]
fn truncated_responses_return_none_instead_of_panicking() {
    for len in 0..100 {
        let _ = parse_response(&vec![0u8; len]);
    }
}

#[test]
fn all_zero_adapter_mac_is_discarded() {
    let mut buf = vec![0u8; 12 + 34 + 4 + 34 + 2 + 2 + 4 + 2];
    buf.push(1);
    let mut padded = [b' '; 15];
    padded[..3].copy_from_slice(b"PC1");
    buf.extend_from_slice(&padded);
    buf.push(0x00);
    buf.extend_from_slice(&0x0400u16.to_be_bytes());
    buf.extend_from_slice(&[0u8; 6]);
    let result = parse_response(&buf).expect("should parse");
    assert!(result.mac.is_none(), "an all-zero MAC carries no identity");
}

#[test]
fn resolver_configuration_lists_servers_and_domains_once() {
    let text = "# generated\nnameserver 10.0.3.1\nnameserver  1.1.1.1 \nnameserver 10.0.3.1\nsearch lan home.arpa\nsearch lan corp\noptions edns0\n";
    let config = parse_resolv_conf(text);
    assert_eq!(config.servers, vec!["10.0.3.1".to_string(), "1.1.1.1".to_string()]);
    assert_eq!(config.search_domains, vec!["lan".to_string(), "home.arpa".to_string(), "corp".to_string()]);
}

#[test]
fn an_empty_resolver_configuration_names_nothing() {
    let config = parse_resolv_conf("");
    assert!(config.servers.is_empty());
    assert!(config.search_domains.is_empty());
}
