use netdiag::export::{snapshot_to_csv, truncate};
use netdiag::types::{Device, DeviceType, PortInfo};

fn router() -> Device {
    let mut device = Device::bare("10.0.3.1".to_string(), "t".to_string());
    device.display_name = "x".to_string();
    device.device_type = DeviceType::Router;
    device.is_gateway = true;
    device.responded_to_ping = true;
    device.discovered_by = vec!["icmp".to_string()];
    device
}

#[test]
fn csv_export_escapes_separators_and_quotes() {
    let mut device = router();
    device.display_name = "Router, \"main\"".into();
    let csv = snapshot_to_csv(&vec![device]);
    assert!(csv.contains("\"Router, \"\"main\"\"\""), "commas and quotes must be escaped: {csv}");
}

#[test]
fn csv_export_writes_a_header_and_one_row_per_device() {
    let mut device = router();
    device.mac = Some("e0:63:da:82:1b:35".to_string());
    device.vendor = Some("Ubiquiti".to_string());
    device.mac_randomized = Some(false);
    device.hostnames = vec!["gw".to_string(), "gw.lan".to_string()];
    device.ports = vec![
        PortInfo { port: 22, protocol: "tcp".to_string(), service: None, banner: None },
        PortInfo { port: 443, protocol: "tcp".to_string(), service: None, banner: None },
    ];
    device.first_seen = Some("2024-01-01".to_string());
    let mut far = Device::bare("10.0.9.9".to_string(), "t".to_string());
    far.display_name = "far".to_string();
    far.mac_randomized = Some(true);
    far.off_subnet = true;
    let csv = snapshot_to_csv(&vec![device, far]);
    assert_eq!(
        csv,
        "ip,name,type,mac,vendor,randomized_mac,hostnames,open_ports,discovered_by,off_subnet,first_seen\n\
         10.0.3.1,x,router,e0:63:da:82:1b:35,Ubiquiti,,gw gw.lan,22 443,icmp,,2024-01-01\n\
         10.0.9.9,far,unknown,,,yes,,,,yes,\n"
    );
}

#[test]
fn an_empty_scan_exports_only_the_header() {
    assert_eq!(
        snapshot_to_csv(&vec![]),
        "ip,name,type,mac,vendor,randomized_mac,hostnames,open_ports,discovered_by,off_subnet,first_seen\n"
    );
}

#[test]
fn truncation_keeps_short_text_and_marks_a_cut() {
    assert_eq!(truncate("router", 30), "router");
    assert_eq!(truncate("abcdef", 6), "abcdef");
    assert_eq!(truncate("abcdefg", 6), "abcde\u{2026}");
    assert_eq!(truncate("żółw-żółw", 4), "żół\u{2026}");
    assert_eq!(truncate("abc", 0), "\u{2026}");
}
