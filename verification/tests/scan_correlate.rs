use netdiag::oui::OuiTable;
use netdiag::scan::correlate::{correlate, CorrelateInput};
use netdiag::textmap::TextMap;
use netdiag::types::{DeviceType, MdnsService, NetbiosResult, PortInfo};

fn ip(a: u8, b: u8, c: u8, d: u8) -> u32 {
    u32::from_be_bytes([a, b, c, d])
}

fn table() -> OuiTable {
    let mut t = OuiTable::empty();
    t.mal.insert("E063DA".to_string(), "Ubiquiti".to_string());
    t.mal.insert("2462AB".to_string(), "Espressif".to_string());
    t.mal.insert("3C58C2".to_string(), "Intel Corporate".to_string());
    t
}

fn base_input() -> CorrelateInput {
    CorrelateInput {
        alive: Vec::new(),
        neighbors: Vec::new(),
        open_ports: Vec::new(),
        refused_hosts: Vec::new(),
        mdns: Vec::new(),
        ssdp: Vec::new(),
        netbios: Vec::new(),
        reverse_dns: Vec::new(),
        banners: Vec::new(),
        gateway_ip: None,
        self_ips: Vec::new(),
        self_macs: Vec::new(),
        targets: Vec::new(),
        local_cidrs: vec!["10.0.3.0/24".to_string()],
    }
}

#[test]
fn identifies_the_gateway_from_the_routing_table_not_inference() {
    let gw = ip(10, 0, 3, 1);
    let mut input = base_input();
    input.gateway_ip = Some(gw);
    input.alive.push(gw);
    input.neighbors.push((gw, "e0:63:da:82:1b:35".to_string()));

    let devices = correlate(input, &table());
    let gateway = &devices[0];
    assert!(gateway.is_gateway);
    assert_eq!(gateway.device_type, DeviceType::Router);
    assert_eq!(gateway.vendor.as_deref(), Some("Ubiquiti"));
    assert_eq!(gateway.type_evidence, vec!["carries the default route".to_string()]);
}

#[test]
fn classifies_an_esphome_node_from_mdns_and_port() {
    let node = ip(10, 0, 3, 22);
    let mut input = base_input();
    input.alive.push(node);
    input.neighbors.push((node, "24:62:ab:e4:5f:a4".to_string()));
    input.open_ports.push((
        node,
        vec![PortInfo { port: 6053, protocol: "tcp".to_string(), service: Some("esphome".to_string()), banner: None }],
    ));
    let mut txt = TextMap::new();
    txt.insert("platform".to_string(), "ESP32".to_string());
    input.mdns.push(MdnsService {
        service_type: "_esphomelib._tcp".to_string(),
        name: "sterownik".to_string(),
        hostname: Some("sterownik.local".to_string()),
        port: Some(6053),
        address: Some("10.0.3.22".to_string()),
        txt,
    });

    let devices = correlate(input, &table());
    let device = devices.iter().find(|d| d.ip == "10.0.3.22").unwrap();
    assert_eq!(device.display_name, "sterownik");
    assert_eq!(device.device_type, DeviceType::Iot);
    assert_eq!(device.vendor.as_deref(), Some("Espressif"));
    assert!(device.type_evidence.iter().any(|e| e.contains("IoT service")));
    assert!(device.discovered_by.contains(&"mdns".to_string()));
}

#[test]
fn flags_randomized_macs_and_never_names_a_vendor_for_them() {
    let host = ip(10, 0, 3, 214);
    let mut input = base_input();
    input.alive.push(host);
    input.neighbors.push((host, "ca:3a:94:02:94:de".to_string()));

    let devices = correlate(input, &table());
    let device = &devices[0];
    assert_eq!(device.mac_randomized, Some(true));
    assert!(device.vendor.is_none());
}

#[test]
fn stale_arp_entries_do_not_invent_devices() {
    let mut input = base_input();
    input.neighbors.push((ip(10, 0, 3, 99), "aa:bb:cc:dd:ee:ff".to_string()));

    let devices = correlate(input, &table());
    assert!(devices.is_empty(), "a MAC alone is not proof a host is present");
}

#[test]
fn marks_devices_outside_the_local_subnet() {
    let far = ip(10, 0, 107, 110);
    let mut input = base_input();
    input.open_ports.push((
        far,
        vec![PortInfo {
            port: 8123,
            protocol: "tcp".to_string(),
            service: Some("home-assistant".to_string()),
            banner: None,
        }],
    ));

    let devices = correlate(input, &table());
    let device = &devices[0];
    assert!(device.off_subnet, "10.0.107.110 is outside 10.0.3.0/24");
    assert_eq!(device.device_type, DeviceType::Server);
}

#[test]
fn self_is_identified_with_its_interface_mac() {
    let me = ip(10, 0, 3, 221);
    let mut input = base_input();
    input.alive.push(me);
    input.self_ips.push(me);
    input.self_macs.push((me, "3c:58:c2:52:29:84".to_string()));

    let devices = correlate(input, &table());
    let device = &devices[0];
    assert!(device.is_self);
    assert_eq!(device.device_type, DeviceType::Computer);
    assert_eq!(device.vendor.as_deref(), Some("Intel Corporate"));
}

#[test]
fn a_refused_connection_counts_as_a_live_host() {
    let mut input = base_input();
    input.refused_hosts.push(ip(10, 0, 3, 50));

    let devices = correlate(input, &table());
    assert_eq!(devices.len(), 1);
    assert!(!devices[0].responded_to_ping);
    assert!(devices[0].discovered_by.contains(&"tcp-refused".to_string()));
}

#[test]
fn the_gateway_sorts_first_then_self_then_address() {
    let mut input = base_input();
    let gw = ip(10, 0, 3, 1);
    let me = ip(10, 0, 3, 9);
    input.alive = vec![ip(10, 0, 3, 5), me, gw, ip(10, 0, 3, 2)];
    input.gateway_ip = Some(gw);
    input.self_ips.push(me);
    let devices = correlate(input, &table());
    let order: Vec<&str> = devices.iter().map(|d| d.ip.as_str()).collect();
    assert_eq!(order, vec!["10.0.3.1", "10.0.3.9", "10.0.3.2", "10.0.3.5"]);
}

#[test]
fn each_device_keeps_its_ports_and_how_it_was_found() {
    let host = ip(10, 0, 3, 7);
    let mut input = base_input();
    input.alive.push(host);
    input.open_ports.push((
        host,
        vec![
            PortInfo { port: 443, protocol: "tcp".to_string(), service: None, banner: None },
            PortInfo { port: 22, protocol: "tcp".to_string(), service: None, banner: None },
        ],
    ));
    let devices = correlate(input, &table());
    let ports: Vec<u16> = devices[0].ports.iter().map(|p| p.port).collect();
    assert_eq!(ports, vec![22, 443]);
    assert_eq!(devices[0].discovered_by, vec!["icmp".to_string(), "tcp".to_string()]);
}

#[test]
fn names_and_mac_come_from_every_source_in_order() {
    let host = ip(10, 0, 3, 40);
    let mut input = base_input();
    input.alive.push(host);
    input.mdns.push(MdnsService {
        service_type: "_http._tcp".to_string(),
        name: "nas".to_string(),
        hostname: Some("nas.local.".to_string()),
        port: Some(80),
        address: Some("10.0.3.40".to_string()),
        txt: TextMap::new(),
    });
    input.netbios.push((
        host,
        NetbiosResult {
            names: vec!["NAS01".to_string(), "nas.local".to_string()],
            workgroup: Some("WORKGROUP".to_string()),
            mac: Some("00:11:32:aa:bb:cc".to_string()),
        },
    ));
    input.reverse_dns.push((host, "nas.lan.".to_string()));
    let devices = correlate(input, &table());
    let d = &devices[0];
    assert_eq!(d.hostnames, vec!["nas.local".to_string(), "NAS01".to_string(), "nas.lan".to_string()]);
    assert_eq!(d.mac.as_deref(), Some("00:11:32:aa:bb:cc"));
    assert_eq!(d.reverse_dns.as_deref(), Some("nas.lan"));
    assert_eq!(d.discovered_by, vec!["icmp".to_string(), "mdns".to_string(), "netbios".to_string()]);
}
