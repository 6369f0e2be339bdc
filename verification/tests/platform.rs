use netdiag::platform::{linux, macos, windows};

fn ip(a: u32, b: u32, c: u32, d: u32) -> u32 {
    (a << 24) | (b << 16) | (c << 8) | d
}

#[test]
fn splits_nmcli_terse_output_preserving_escaped_bssid_colons() {
    let line = r"*:ADOFULL:78\:8A\:20\:5B\:C4\:B8:149:5745 MHz:405 Mbit/s:97:WPA2";
    let fields = linux::split_terse(line);
    assert_eq!(fields[0], "*");
    assert_eq!(fields[1], "ADOFULL");
    assert_eq!(fields[2], "78:8A:20:5B:C4:B8");
    assert_eq!(fields[3], "149");
    assert_eq!(fields[7], "WPA2");
}

#[test]
fn handles_hidden_ssid_as_empty_field() {
    let line = r" ::86\:8A\:20\:5A\:C4\:B8:6:2437 MHz:195 Mbit/s:100:WPA2";
    let fields = linux::split_terse(line);
    assert_eq!(fields[1], "", "hidden network should yield an empty SSID field");
}

#[test]
fn parses_ip_neigh_style_lines() {
    let line = "10.0.3.1 dev wlo1 lladdr e0:63:da:82:1b:35 REACHABLE";
    let neighbors = linux::parse_ip_neigh(line);
    assert_eq!(neighbors.len(), 1);
    assert_eq!(neighbors[0].ip, ip(10, 0, 3, 1));
    assert_eq!(neighbors[0].mac, "e0:63:da:82:1b:35");
}

#[test]
fn linux_ping_uses_seconds_for_its_timeout() {
    let args = linux::ping_args("10.0.3.1", 1, 1);
    assert_eq!(args, vec!["-c", "1", "-W", "1", "-n", "-q", "10.0.3.1"]);
}

#[test]
fn parses_bsd_arp_output_including_unpadded_octets() {
    let output = "? (10.0.3.1) at e0:63:da:82:1b:35 on en0 ifscope [ethernet]\n\
                  ? (10.0.3.9) at e0:63:da:8:1b:5 on en0 ifscope [ethernet]\n\
                  ? (10.0.3.4) at (incomplete) on en0 [ethernet]";
    let neighbors = macos::parse_arp_an(output);
    assert_eq!(neighbors.len(), 2, "incomplete entries must be skipped");
    assert_eq!(neighbors[0].mac, "e0:63:da:82:1b:35");
    assert_eq!(neighbors[1].mac, "e0:63:da:08:1b:05");
}

#[test]
fn bsd_ping_timeout_is_expressed_in_milliseconds() {
    let args = macos::ping_args("10.0.3.1", 1, 1);
    let w = args.iter().position(|a| a == "-W").unwrap();
    assert_eq!(args[w + 1], "1000", "BSD ping -W is milliseconds, not seconds");
}

#[test]
fn rejects_malformed_macs() {
    assert_eq!(macos::normalize_bsd_mac("not:a:mac"), "");
    assert_eq!(macos::normalize_bsd_mac("e0:63:da:82:1b"), "");
}

#[test]
fn parses_windows_arp_table_and_skips_multicast() {
    let output = "\nInterface: 10.0.3.221 --- 0xa\n  Internet Address      Physical Address      Type\n  \
                  10.0.3.1              e0-63-da-82-1b-35     dynamic\n  \
                  10.0.3.22             24-62-ab-e4-5f-a4     dynamic\n  \
                  224.0.0.22            01-00-5e-00-00-16     static\n  \
                  255.255.255.255       ff-ff-ff-ff-ff-ff     static\n";
    let neighbors = windows::parse_arp_a(output);
    assert_eq!(neighbors.len(), 2, "multicast and broadcast rows must be dropped");
    assert_eq!(neighbors[0].mac, "e0:63:da:82:1b:35", "dashes must become colons");
    assert_eq!(neighbors[1].mac, "24:62:ab:e4:5f:a4");
}

#[test]
fn windows_ping_uses_n_for_count_and_w_in_milliseconds() {
    let args = windows::ping_args("10.0.3.1", 1, 1);
    assert_eq!(args[0], "-n");
    assert_eq!(args[1], "1");
    let w = args.iter().position(|a| a == "-w").unwrap();
    assert_eq!(args[w + 1], "1000");
}

#[test]
fn parses_netsh_networks_with_multiple_bssids_per_ssid() {
    let output = "Interface name : Wi-Fi\nThere are 2 networks currently visible.\n\n\
        SSID 1 : ADOFULL\n    Network type            : Infrastructure\n    Authentication          : WPA2-Personal\n    Encryption              : CCMP\n    \
        BSSID 1                 : 78:8a:20:5b:c4:b8\n         Signal             : 97%\n         Radio type         : 802.11ac\n         Channel            : 149\n    \
        BSSID 2                 : 7e:8a:20:5a:c4:b8\n         Signal             : 100%\n         Radio type         : 802.11n\n         Channel            : 6\n\n\
        SSID 2 : \n    Network type            : Infrastructure\n    Authentication          : WPA2-Personal\n    \
        BSSID 1                 : 86:8a:20:5a:c4:b8\n         Signal             : 52%\n         Channel            : 6\n";

    let networks = windows::parse_netsh_networks(output);
    assert_eq!(networks.len(), 3, "each BSSID is its own radio");
    assert_eq!(networks[0].ssid, "ADOFULL");
    assert_eq!(networks[0].channel, 149);
    assert_eq!(networks[0].band, "5 GHz");
    assert_eq!(networks[0].signal, 97);
    assert_eq!(networks[1].channel, 6);
    assert_eq!(networks[1].band, "2.4 GHz");
    assert_eq!(networks[2].ssid, "(hidden)", "an empty SSID is a hidden network");
    assert_eq!(networks[0].security.as_deref(), Some("WPA2-Personal"));
}

#[test]
fn parses_netsh_interface_block() {
    let output = "    Name                   : Wi-Fi\n    SSID                   : ADOFULL\n    BSSID                  : 78:8a:20:5b:c4:b8\n    Receive rate (Mbps)    : 405\n";
    let (iface, ssid, bssid, rate) = windows::parse_netsh_interfaces(output);
    assert_eq!(iface.as_deref(), Some("Wi-Fi"));
    assert_eq!(ssid.as_deref(), Some("ADOFULL"));
    assert_eq!(bssid.as_deref(), Some("78:8A:20:5B:C4:B8"));
    assert_eq!(rate.as_deref(), Some("405 Mbit/s"));
}
