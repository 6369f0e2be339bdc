use netdiag::store::{apply_history, diff, Store};
use netdiag::types::{ChangeKind, Device, PortInfo, PortProfile};

fn device(ip: &str, mac: Option<&str>, name: &str, ports: &[u16]) -> Device {
    let mut d = Device::bare(ip.to_string(), "2026-08-04T00:01:00Z".to_string());
    d.mac = mac.map(|m| m.to_string());
    d.display_name = name.to_string();
    d.ports = ports
        .iter()
        .map(|p| PortInfo { port: *p, protocol: "tcp".into(), service: None, banner: None })
        .collect();
    d
}

fn started(id: &str) -> String {
    format!("2026-08-04T00:00:0{}Z", id.len() % 10)
}

#[test]
fn a_device_that_gains_a_mac_is_not_reported_as_both_gone_and_new() {
    let before = vec![device("10.0.3.221", None, "marek", &[])];
    let after = vec![device("10.0.3.221", Some("3c:58:c2:52:29:84"), "marek", &[])];
    let result = diff("a", &before, PortProfile::Standard, "b", &after, PortProfile::Standard);
    assert!(
        result.changes.is_empty(),
        "gaining a MAC is not a change, got: {:?}",
        result.changes.iter().map(|c| &c.detail).collect::<Vec<_>>()
    );
}

#[test]
fn a_dhcp_lease_change_reads_as_one_device_moving() {
    let before = vec![device("10.0.3.50", Some("aa:bb:cc:dd:ee:ff"), "phone", &[])];
    let after = vec![device("10.0.3.77", Some("aa:bb:cc:dd:ee:ff"), "phone", &[])];
    let result = diff("a", &before, PortProfile::Standard, "b", &after, PortProfile::Standard);
    assert_eq!(result.changes.len(), 1);
    assert_eq!(result.changes[0].kind, ChangeKind::IpChanged);
}

#[test]
fn port_deltas_are_suppressed_across_different_scan_profiles() {
    let before = vec![device("10.0.3.22", Some("24:62:ab:e4:5f:a4"), "esp", &[6053])];
    let after = vec![device("10.0.3.22", Some("24:62:ab:e4:5f:a4"), "esp", &[])];
    let result = diff("a", &before, PortProfile::Standard, "b", &after, PortProfile::Quick);
    assert!(
        result.changes.is_empty(),
        "unprobed must not be reported as closed, got: {:?}",
        result.changes.iter().map(|c| &c.detail).collect::<Vec<_>>()
    );
}

#[test]
fn port_changes_are_reported_when_profiles_match() {
    let before = vec![device("10.0.3.10", Some("11:22:33:44:55:66"), "x", &[80])];
    let after = vec![device("10.0.3.10", Some("11:22:33:44:55:66"), "x", &[80, 443])];
    let result = diff("a", &before, PortProfile::Standard, "b", &after, PortProfile::Standard);
    assert_eq!(result.changes.len(), 1);
    assert_eq!(result.changes[0].kind, ChangeKind::PortsOpened);
    assert!(result.changes[0].detail.contains("443"));
}

#[test]
fn cosmetic_name_flips_are_not_reported() {
    let before = vec![device("10.0.3.18", Some("30:58:90:c0:09:03"), "DIGITRADIO 370 CD IR", &[])];
    let after = vec![device("10.0.3.18", Some("30:58:90:c0:09:03"), "DIGITRADIO-370-CD-IR", &[])];
    let result = diff("a", &before, PortProfile::Standard, "b", &after, PortProfile::Standard);
    assert!(result.changes.is_empty(), "same name modulo separators is not a change");
}

#[test]
fn genuinely_new_devices_are_reported_first() {
    let before = vec![device("10.0.3.1", Some("aa:aa:aa:aa:aa:aa"), "gw", &[])];
    let after = vec![
        device("10.0.3.1", Some("aa:aa:aa:aa:aa:aa"), "gw", &[]),
        device("10.0.3.99", Some("bb:bb:bb:bb:bb:bb"), "intruder", &[22]),
    ];
    let result = diff("a", &before, PortProfile::Standard, "b", &after, PortProfile::Standard);
    assert_eq!(result.changes[0].kind, ChangeKind::Appeared);
    assert!(result.changes[0].detail.contains("10.0.3.99"));
}

#[test]
fn the_first_scan_is_marked_as_a_baseline() {
    let mut first = vec![device("10.0.3.1", Some("aa:aa:aa:aa:aa:aa"), "gw", &[])];
    let first_started = started("a");
    let baseline = apply_history(&mut first, &first_started, None);
    assert!(baseline);
    assert_eq!(first[0].first_seen.as_deref(), Some(first_started.as_str()));

    let mut second = vec![device("10.0.3.1", Some("aa:aa:aa:aa:aa:aa"), "gw", &[])];
    let second_started = started("b");
    let baseline = apply_history(&mut second, &second_started, Some((&first, &first_started)));
    assert!(!baseline, "a scan with a predecessor is not a baseline");
}

#[test]
fn first_seen_is_carried_forward_for_known_devices() {
    let mut before = vec![device("10.0.3.1", Some("aa:aa:aa:aa:aa:aa"), "gw", &[])];
    before[0].first_seen = Some("2026-01-01T00:00:00Z".into());
    let before_started = started("a");

    let mut after = vec![
        device("10.0.3.1", Some("aa:aa:aa:aa:aa:aa"), "gw", &[]),
        device("10.0.3.99", Some("bb:bb:bb:bb:bb:bb"), "new", &[]),
    ];
    let after_started = started("b");
    apply_history(&mut after, &after_started, Some((&before, &before_started)));

    assert_eq!(after[0].first_seen.as_deref(), Some("2026-01-01T00:00:00Z"));
    assert_eq!(after[1].first_seen.as_deref(), Some(after_started.as_str()), "a genuinely new device is first seen now");
}

#[test]
fn rejects_ids_that_could_escape_the_store_directory() {
    assert!(!Store::is_valid_id("../../etc/passwd"));
    assert!(!Store::is_valid_id("a/b"));
    assert!(!Store::is_valid_id(""));
    assert!(Store::is_valid_id("2026-08-04T13-05-22-123Z"));
}

#[test]
fn a_disappeared_device_is_reported() {
    let before = vec![device("10.0.3.1", Some("aa:aa:aa:aa:aa:aa"), "gw", &[]), device("10.0.3.5", Some("cc:cc:cc:cc:cc:cc"), "tv", &[])];
    let after = vec![device("10.0.3.1", Some("aa:aa:aa:aa:aa:aa"), "gw", &[])];
    let result = diff("a", &before, PortProfile::Standard, "b", &after, PortProfile::Standard);
    assert_eq!(result.changes.len(), 1);
    assert_eq!(result.changes[0].kind, ChangeKind::Disappeared);
    assert_eq!(result.from_id, "a");
    assert_eq!(result.to_id, "b");
}

#[test]
fn changes_carry_the_records_they_describe() {
    let before = vec![device("10.0.3.5", Some("aa:aa:aa:aa:aa:01"), "old", &[22])];
    let after = vec![
        device("10.0.3.5", Some("aa:aa:aa:aa:aa:01"), "old", &[22, 80]),
        device("10.0.3.9", Some("aa:aa:aa:aa:aa:02"), "new", &[]),
    ];
    let result = diff("a", &before, PortProfile::Standard, "b", &after, PortProfile::Standard);
    let appeared = result.changes.iter().find(|c| c.kind == ChangeKind::Appeared).unwrap();
    assert_eq!(appeared.device.ip, "10.0.3.9");
    assert!(appeared.previous.is_none());
    let opened = result.changes.iter().find(|c| c.kind == ChangeKind::PortsOpened).unwrap();
    assert_eq!(opened.device.ports.len(), 2);
    assert_eq!(opened.previous.as_ref().unwrap().ports.len(), 1);
    let gone = diff("b", &after, PortProfile::Standard, "c", &before, PortProfile::Standard);
    let disappeared = gone.changes.iter().find(|c| c.kind == ChangeKind::Disappeared).unwrap();
    assert_eq!(disappeared.device.ip, "10.0.3.9");
    assert!(disappeared.previous.is_none());
}
