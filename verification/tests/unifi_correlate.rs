use netdiag::types::{Device, PortInfo};
use netdiag::unifi::correlate::{apply, apply_at, ControllerData, ShadowReason};
use netdiag::unifi::model::{
    MacTableEntry, PortEntry, UnifiClientRecord, UnifiDeviceRecord, UnifiEventRecord, UnifiNetworkSummary,
};

fn now() -> i64 {
    chrono::Utc::now().timestamp()
}

fn device(ip: &str, mac: Option<&str>, name: &str, ports: &[u16]) -> Device {
    let mut d = Device::bare(ip.to_string(), "t".to_string());
    d.mac = mac.map(|m| m.to_string());
    d.display_name = name.to_string();
    d.discovered_by = vec!["arp".to_string()];
    d.ports = ports
        .iter()
        .map(|p| PortInfo { port: *p, protocol: "tcp".into(), service: None, banner: None })
        .collect();
    d
}

fn client(mac: &str, name: &str) -> UnifiClientRecord {
    UnifiClientRecord { mac: Some(mac.into()), name: Some(name.into()), last_seen: Some(now()), ..Default::default() }
}

fn managed(mac: Option<&str>, name: &str, model: &str, kind: &str, ports: Option<Vec<PortEntry>>) -> UnifiDeviceRecord {
    UnifiDeviceRecord {
        mac: mac.map(|m| m.to_string()),
        ip: None,
        name: Some(name.into()),
        model: Some(model.into()),
        kind: Some(kind.into()),
        version: None,
        adopted: None,
        state: None,
        uptime: None,
        upgradable: None,
        port_table: ports,
    }
}

fn port(idx: u32, name: Option<&str>, up: Option<bool>, speed: Option<i64>, macs: &[&str]) -> PortEntry {
    PortEntry {
        port_idx: Some(idx),
        name: name.map(|n| n.to_string()),
        up,
        speed,
        poe_enable: None,
        mac_table: if macs.is_empty() {
            None
        } else {
            Some(macs.iter().map(|m| MacTableEntry { mac: Some(m.to_string()), vlan: None }).collect())
        },
    }
}

fn data() -> ControllerData {
    ControllerData { clients: Vec::new(), known_clients: Vec::new(), raw_devices: Vec::new(), raw_events: Vec::new(), networks: Vec::new() }
}

fn network(name: &str, subnet: &str, vlan: Option<u32>) -> UnifiNetworkSummary {
    UnifiNetworkSummary {
        name: name.into(),
        purpose: Some("corporate".into()),
        subnet: Some(subnet.into()),
        vlan,
        enabled: true,
        dhcp: Some(true),
    }
}

fn disconnect_event(mac: &str, seconds_ago: i64) -> UnifiEventRecord {
    UnifiEventRecord {
        key: Some("EVT_WU_Disconnected".into()),
        subsystem: None,
        time: Some((now() - seconds_ago) * 1000),
        msg: None,
        user: Some(mac.into()),
        guest: None,
        hostname: None,
        ap: None,
        ssid: None,
    }
}

#[test]
fn enriches_a_matched_device_with_alias_and_physical_location() {
    let mut devices = vec![device("10.0.3.50", Some("aa:bb:cc:dd:ee:ff"), "10.0.3.50", &[80])];
    let mut record = client("aa:bb:cc:dd:ee:ff", "Marek's Laptop");
    record.sw_mac = Some("11:22:33:44:55:66".into());
    record.sw_port = Some(4);
    record.vlan = Some(20);
    let switch = managed(Some("11:22:33:44:55:66"), "USW_MINI", "USMINI", "usw", None);
    let mut d = data();
    d.clients = vec![record];
    d.raw_devices = vec![switch];

    let result = apply(&mut devices, &d, &Vec::new());

    assert_eq!(result.matched, 1);
    assert!(result.shadow.is_empty());
    assert_eq!(devices[0].display_name, "Marek's Laptop");
    assert_eq!(devices[0].switch_port.as_deref(), Some("USW_MINI (USMINI) port 4"));
    assert_eq!(devices[0].vlan, Some(20));
    assert!(devices[0].discovered_by.contains(&"unifi".to_string()));
}

#[test]
fn flags_a_device_the_controller_has_never_seen() {
    let mut devices = vec![device("10.0.3.99", Some("de:ad:be:ef:00:01"), "unknown", &[22])];
    let result = apply(&mut devices, &data(), &Vec::new());
    assert_eq!(result.shadow.len(), 1);
    assert_eq!(result.shadow[0].reason, ShadowReason::UnknownToController);
    assert!(!result.shadow[0].explanation.is_empty(), "every shadow device must state why");
    assert_eq!(result.shadow[0].open_ports, vec![22]);
}

#[test]
fn the_scanning_host_and_gateway_are_never_shadows() {
    let mut devices = vec![
        device("10.0.3.221", Some("3c:58:c2:52:29:84"), "this machine", &[]),
        device("10.0.3.1", Some("e0:63:da:82:1b:35"), "gateway", &[443]),
    ];
    devices[0].is_self = true;
    devices[1].is_gateway = true;
    let result = apply(&mut devices, &data(), &Vec::new());
    assert!(result.shadow.is_empty(), "self and gateway must be exempt");
}

#[test]
fn recovers_identity_for_a_randomized_mac() {
    let mut devices = vec![device("10.0.3.214", Some("ca:3a:94:02:94:de"), "10.0.3.214", &[])];
    devices[0].mac_randomized = Some(true);
    let mut d = data();
    d.clients = vec![client("ca:3a:94:02:94:de", "Pixel 10")];
    apply(&mut devices, &d, &Vec::new());
    assert_eq!(devices[0].display_name, "Pixel 10");
    assert!(devices[0].type_evidence.iter().any(|e| e.contains("randomized MAC")));
}

#[test]
fn reports_controller_clients_the_scan_did_not_reach() {
    let mut devices: Vec<Device> = Vec::new();
    let mut d = data();
    d.clients = vec![client("aa:aa:aa:aa:aa:aa", "Sleeping Tablet")];
    let result = apply(&mut devices, &d, &Vec::new());
    assert_eq!(result.missed.len(), 1);
    assert_eq!(result.missed[0].name, "Sleeping Tablet");
}

#[test]
fn long_absent_clients_are_not_reported_as_missed() {
    let mut stale = client("bb:bb:bb:bb:bb:bb", "Old Phone");
    stale.last_seen = Some(now() - 60 * 86_400);
    let mut d = data();
    d.clients = vec![stale];
    let result = apply(&mut Vec::new(), &d, &Vec::new());
    assert!(result.missed.is_empty(), "a device absent for 60 days is not news");
}

#[test]
fn infers_an_unmanaged_switch_from_a_crowded_port() {
    let switch = managed(None, "USW_MINI", "USMINI", "usw", Some(vec![port(4, None, None, None, &["a1:11:11:11:11:11", "b2:22:22:22:22:22"])]));
    let mut d = data();
    d.raw_devices = vec![switch];
    let result = apply(&mut Vec::new(), &d, &Vec::new());
    assert_eq!(result.hidden_segments.len(), 1);
    assert_eq!(result.hidden_segments[0].mac_count, 2);
    assert!(result.hidden_segments[0].explanation.contains("unmanaged switch"));
}

#[test]
fn flags_an_appliance_that_exposes_a_shell() {
    let mut devices = vec![device("10.0.3.60", Some("cc:cc:cc:cc:cc:cc"), "Living Room TV", &[22, 80])];
    let mut record = client("cc:cc:cc:cc:cc:cc", "Living Room TV");
    record.dev_family = Some("Smart TV".into());
    let mut d = data();
    d.clients = vec![record];
    let result = apply(&mut devices, &d, &Vec::new());
    assert_eq!(result.identity_conflicts.len(), 1);
    assert!(result.identity_conflicts[0].contains("remote-shell"));
}

#[test]
fn copies_experience_fields_onto_a_matched_device() {
    let mut devices = vec![device("10.0.3.50", Some("aa:bb:cc:dd:ee:ff"), "x", &[])];
    let mut record = client("aa:bb:cc:dd:ee:ff", "Laptop");
    record.satisfaction = Some(97);
    record.channel = Some(149);
    record.radio_proto = Some("ax".into());
    record.tx_bytes = Some(1_200);
    record.rx_bytes = Some(3_400);
    record.uptime = Some(7_200);
    record.is_guest = Some(false);
    record.note = Some("  ".into());
    let mut d = data();
    d.clients = vec![record];
    apply(&mut devices, &d, &Vec::new());
    assert_eq!(devices[0].satisfaction, Some(97));
    assert_eq!(devices[0].channel, Some(149));
    assert_eq!(devices[0].wifi_generation.as_deref(), Some("Wi-Fi 6 (ax)"));
    assert_eq!(devices[0].tx_bytes, Some(1_200));
    assert_eq!(devices[0].rx_bytes, Some(3_400));
    assert_eq!(devices[0].unifi_uptime, Some(7_200));
    assert_eq!(devices[0].is_guest, Some(false));
    assert_eq!(devices[0].unifi_note, None, "a blank note is no note");
}

#[test]
fn a_recently_first_seen_client_gets_new_device_evidence() {
    let mut devices = vec![device("10.0.3.50", Some("aa:bb:cc:dd:ee:ff"), "x", &[])];
    let mut record = client("aa:bb:cc:dd:ee:ff", "New Gadget");
    record.first_seen = Some(now() - 3_600);
    let mut d = data();
    d.clients = vec![record];
    apply(&mut devices, &d, &Vec::new());
    assert!(devices[0].type_evidence.iter().any(|e| e.contains("last 48 hours")));
}

#[test]
fn a_struggling_wireless_client_is_reported_with_the_reason() {
    let mut devices = vec![device("10.0.3.70", Some("aa:bb:cc:dd:ee:01"), "x", &[])];
    let mut record = client("aa:bb:cc:dd:ee:01", "Garden Camera");
    record.is_wired = Some(false);
    record.satisfaction = Some(41);
    record.signal = Some(-82);
    let mut d = data();
    d.clients = vec![record];
    let result = apply(&mut devices, &d, &Vec::new());
    assert_eq!(result.wireless_issues.len(), 1);
    let issue = &result.wireless_issues[0];
    assert_eq!(issue.satisfaction, Some(41));
    assert_eq!(issue.signal_dbm, Some(-82));
    assert!(issue.explanation.contains("41 %"));
    assert!(issue.explanation.contains("-82 dBm"));
}

#[test]
fn wired_and_healthy_clients_are_not_wireless_issues() {
    let mut devices = vec![
        device("10.0.3.71", Some("aa:bb:cc:dd:ee:02"), "wired", &[]),
        device("10.0.3.72", Some("aa:bb:cc:dd:ee:03"), "healthy", &[]),
    ];
    let mut wired = client("aa:bb:cc:dd:ee:02", "NAS");
    wired.is_wired = Some(true);
    wired.satisfaction = Some(30);
    let mut healthy = client("aa:bb:cc:dd:ee:03", "Laptop");
    healthy.is_wired = Some(false);
    healthy.satisfaction = Some(95);
    healthy.signal = Some(-55);
    let mut d = data();
    d.clients = vec![wired, healthy];
    let result = apply(&mut devices, &d, &Vec::new());
    assert!(result.wireless_issues.is_empty());
}

#[test]
fn a_positive_rssi_scale_is_not_mistaken_for_dbm() {
    let mut devices = vec![
        device("10.0.3.73", Some("aa:bb:cc:dd:ee:04"), "good", &[]),
        device("10.0.3.74", Some("aa:bb:cc:dd:ee:05"), "weak", &[]),
    ];
    let mut good = client("aa:bb:cc:dd:ee:04", "Strong Signal");
    good.is_wired = Some(false);
    good.rssi = Some(45);
    let mut weak = client("aa:bb:cc:dd:ee:05", "Far Away");
    weak.is_wired = Some(false);
    weak.rssi = Some(8);
    let mut d = data();
    d.clients = vec![good, weak];
    let result = apply(&mut devices, &d, &Vec::new());
    assert_eq!(result.wireless_issues.len(), 1);
    assert_eq!(result.wireless_issues[0].display_name, "Far Away");
}

#[test]
fn a_guest_device_listening_on_ports_is_a_conflict() {
    let mut devices = vec![device("10.0.3.80", Some("aa:bb:cc:dd:ee:06"), "Guest Box", &[80, 443])];
    let mut record = client("aa:bb:cc:dd:ee:06", "Guest Box");
    record.is_guest = Some(true);
    let mut d = data();
    d.clients = vec![record];
    let result = apply(&mut devices, &d, &Vec::new());
    assert_eq!(result.identity_conflicts.len(), 1);
    assert!(result.identity_conflicts[0].contains("guest network"));

    let mut quiet_devices = vec![device("10.0.3.80", Some("aa:bb:cc:dd:ee:06"), "g", &[])];
    let mut quiet = client("aa:bb:cc:dd:ee:06", "Guest Phone");
    quiet.is_guest = Some(true);
    let mut d = data();
    d.clients = vec![quiet];
    assert!(apply(&mut quiet_devices, &d, &Vec::new()).identity_conflicts.is_empty());
}

#[test]
fn degraded_links_surface_with_an_explanation() {
    let switch = managed(
        None,
        "USW",
        "US8",
        "usw",
        Some(vec![port(1, None, Some(true), Some(1000), &[]), port(5, Some("Study"), Some(true), Some(100), &[])]),
    );
    let mut d = data();
    d.raw_devices = vec![switch];
    let result = apply(&mut Vec::new(), &d, &Vec::new());
    assert_eq!(result.degraded_links.len(), 1);
    assert_eq!(result.degraded_links[0].port, 5);
    assert!(result.degraded_links[0].explanation.contains("cable"));
    assert!(result.summary.contains("degraded link"));
}

#[test]
fn a_configured_network_no_target_covered_is_a_blind_spot() {
    let mut d = data();
    d.networks = vec![network("Main", "10.0.3.0/24", None), network("IoT", "10.0.30.0/24", Some(30))];
    let result = apply(&mut Vec::new(), &d, &vec!["10.0.3.0/24".to_string()]);
    assert_eq!(result.unscanned_networks.len(), 1);
    let blind = &result.unscanned_networks[0];
    assert_eq!(blind.name, "IoT");
    assert_eq!(blind.vlan, Some(30));
    assert!(blind.explanation.contains("VLAN 30"));
    assert!(result.summary.contains("never scanned"));
}

#[test]
fn overlap_with_any_target_counts_as_covered() {
    let mut d = data();
    d.networks = vec![network("Main", "10.0.1.0/24", None)];
    let result = apply(&mut Vec::new(), &d, &vec!["10.0.0.0/22".to_string()]);
    assert!(result.unscanned_networks.is_empty());
}

#[test]
fn wan_vpn_and_disabled_networks_are_not_blind_spots() {
    let mut wan = network("WAN", "203.0.113.0/24", None);
    wan.purpose = Some("wan".into());
    let mut vpn = network("Road warriors", "192.168.99.0/24", None);
    vpn.purpose = Some("remote-user-vpn".into());
    let mut disabled = network("Old lab", "10.9.9.0/24", None);
    disabled.enabled = false;
    let mut d = data();
    d.networks = vec![wan, vpn, disabled];
    let result = apply(&mut Vec::new(), &d, &Vec::new());
    assert!(result.unscanned_networks.is_empty());
}

#[test]
fn a_missed_device_on_a_blind_spot_network_gets_the_concrete_explanation() {
    let mut record = client("aa:aa:aa:aa:aa:aa", "Camera");
    record.ip = Some("10.0.30.42".into());
    let mut d = data();
    d.clients = vec![record];
    d.networks = vec![network("IoT", "10.0.30.0/24", Some(30))];
    let result = apply(&mut Vec::new(), &d, &vec!["10.0.3.0/24".to_string()]);
    assert_eq!(result.missed.len(), 1);
    assert!(
        result.missed[0].explanation.contains("\"IoT\""),
        "the guess must upgrade to a named network: {}",
        result.missed[0].explanation
    );
    assert!(result.missed[0].explanation.contains("expected, not a fault"));
}

#[test]
fn a_vlan_number_resolves_to_the_configured_network_name() {
    let mut devices = vec![device("10.0.30.5", Some("bb:bb:bb:bb:bb:bb"), "x", &[])];
    let mut record = client("bb:bb:bb:bb:bb:bb", "Sensor");
    record.vlan = Some(30);
    let mut d = data();
    d.clients = vec![record];
    d.networks = vec![network("IoT", "10.0.30.0/24", Some(30))];
    apply(&mut devices, &d, &vec!["10.0.30.0/24".to_string()]);
    assert_eq!(devices[0].unifi_network.as_deref(), Some("IoT"));
}

#[test]
fn a_missed_device_with_a_recent_disconnect_gets_the_event_explanation() {
    let mut record = client("aa:aa:aa:aa:aa:aa", "Tablet");
    record.ip = Some("10.0.3.90".into());
    let mut d = data();
    d.clients = vec![record];
    d.raw_events = vec![disconnect_event("aa:aa:aa:aa:aa:aa", 25 * 60)];
    let result = apply(&mut Vec::new(), &d, &Vec::new());
    assert_eq!(result.missed.len(), 1);
    assert!(
        result.missed[0].explanation.contains("logged it disconnecting"),
        "guess must upgrade to the logged fact: {}",
        result.missed[0].explanation
    );
    assert!(result.missed[0].explanation.contains("25 minute(s)"));
}

#[test]
fn the_blind_spot_explanation_outranks_the_event_one() {
    let mut record = client("aa:aa:aa:aa:aa:aa", "Camera");
    record.ip = Some("10.0.30.42".into());
    let mut d = data();
    d.clients = vec![record];
    d.networks = vec![network("IoT", "10.0.30.0/24", Some(30))];
    d.raw_events = vec![disconnect_event("aa:aa:aa:aa:aa:aa", 600)];
    let result = apply(&mut Vec::new(), &d, &vec!["10.0.3.0/24".to_string()]);
    assert!(result.missed[0].explanation.contains("\"IoT\""));
}

#[test]
fn three_disconnects_in_a_day_is_flapping_two_is_not() {
    let mut d = data();
    d.clients = vec![client("aa:aa:aa:aa:aa:01", "Doorbell")];
    d.raw_events = vec![
        disconnect_event("aa:aa:aa:aa:aa:01", 3_600),
        disconnect_event("aa:aa:aa:aa:aa:01", 7_200),
        disconnect_event("aa:aa:aa:aa:aa:01", 10_800),
        disconnect_event("bb:bb:bb:bb:bb:02", 3_600),
        disconnect_event("bb:bb:bb:bb:bb:02", 7_200),
    ];
    let result = apply(&mut Vec::new(), &d, &Vec::new());
    assert_eq!(result.flapping_clients.len(), 1);
    let flap = &result.flapping_clients[0];
    assert_eq!(flap.name, "Doorbell", "named via the client record");
    assert_eq!(flap.disconnects, 3);
    assert!(flap.explanation.contains("3 disconnects"));
    assert!(result.summary.contains("flapping"));
}

#[test]
fn a_fully_reconciled_network_says_so_plainly() {
    let mut devices = vec![device("10.0.3.50", Some("aa:bb:cc:dd:ee:ff"), "x", &[])];
    let mut d = data();
    d.clients = vec![client("aa:bb:cc:dd:ee:ff", "Laptop")];
    let result = apply(&mut devices, &d, &Vec::new());
    assert!(result.summary.contains("accounted for"));
    assert!(result.shadow.is_empty() && result.missed.is_empty());
}

#[test]
fn a_fixed_clock_gives_exact_ages() {
    let mut record = client("aa:aa:aa:aa:aa:aa", "Tablet");
    record.last_seen = Some(1_000_000);
    let mut d = data();
    d.clients = vec![record];
    d.raw_events = vec![UnifiEventRecord { time: Some(1_000_000 - 7_200), ..disconnect_event("aa:aa:aa:aa:aa:aa", 0) }];
    let result = apply_at(&mut Vec::new(), &d, &Vec::new(), 1_000_000);
    assert_eq!(
        result.missed[0].explanation,
        "The controller lists it as a client, but also logged it disconnecting 2 hour(s) ago \u{2014} it was likely offline when the scan probed it."
    );
    assert_eq!(result.summary, "0 accounted for, 1 the scan did not reach");
}
