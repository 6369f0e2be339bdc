use netdiag::scan::http::{extract_title, parse_response};
use netdiag::scan::mdns::{label_for_service_type, unescape_dns_label};
use netdiag::scan::ssdp::{extract_tag, parse_description, parse_headers};
use netdiag::scan::sweep::{count_before, ping_succeeded};
use netdiag::scan::wifi::{assemble, band_for_frequency, dbm_to_quality, overlaps};
use netdiag::types::WifiNetwork;

#[test]
fn parses_status_line_and_headers() {
    let raw = "HTTP/1.1 301 Moved Permanently\r\nLocation: https://10.0.3.1/\r\nServer: Server\r\n\r\n<html></html>";
    let response = parse_response(raw).unwrap();
    assert_eq!(response.status, 301);
    assert_eq!(response.headers.get("location").unwrap(), "https://10.0.3.1/");
    assert_eq!(response.headers.get("server").unwrap(), "Server");
}

#[test]
fn extracts_title_with_attributes_and_whitespace() {
    assert_eq!(extract_title("<html><title>UniFi</title>"), Some("UniFi".into()));
    assert_eq!(extract_title("<TITLE lang=\"en\">  Router\n  Login  </TITLE>"), Some("Router Login".into()));
    assert_eq!(extract_title("<html>no title</html>"), None);
    assert_eq!(extract_title("<title>   </title>"), None);
}

#[test]
fn malformed_responses_are_rejected_not_panicked() {
    assert!(parse_response("").is_none());
    assert!(parse_response("garbage").is_none());
    assert!(parse_response("HTTP/1.1\r\n\r\n").is_none());
}

#[test]
fn unescapes_dns_sd_decimal_and_literal_escapes() {
    assert_eq!(unescape_dns_label(r"DIGITRADIO\032370\032CD\032IR"), "DIGITRADIO 370 CD IR");
    assert_eq!(unescape_dns_label(r"Marek\'s\032Mac"), "Marek's Mac");
    assert_eq!(unescape_dns_label("plain"), "plain");
}

#[test]
fn labels_known_service_types() {
    assert_eq!(label_for_service_type("_esphomelib._tcp"), "ESPHome device");
    assert_eq!(label_for_service_type("_home-assistant._tcp.local"), "Home Assistant");
    assert_eq!(label_for_service_type("_unknownthing._tcp"), "unknownthing");
}

#[test]
fn parses_a_upnp_device_description() {
    let xml = r#"<?xml version="1.0"?><root xmlns="urn:schemas-upnp-org:device-1-0">
        <device>
          <deviceType>urn:schemas-upnp-org:device:MediaRenderer:1</deviceType>
          <friendlyName>DIGITRADIO 370 CD IR</friendlyName>
          <manufacturer>TechniSat</manufacturer>
          <modelName>DIGITRADIO 370 CD IR</modelName>
          <modelNumber>1.2.3</modelNumber>
          <serialNumber>ABC123</serialNumber>
        </device></root>"#;
    let record = parse_description(xml);
    assert_eq!(record.manufacturer.as_deref(), Some("TechniSat"));
    assert_eq!(record.friendly_name.as_deref(), Some("DIGITRADIO 370 CD IR"));
    assert_eq!(record.serial_number.as_deref(), Some("ABC123"));
    assert!(record.device_type.as_deref().unwrap().contains("MediaRenderer"));
}

#[test]
fn decodes_cdata_and_entities() {
    let xml = "<friendlyName><![CDATA[Marek's Router]]></friendlyName><modelName>A &amp; B</modelName>";
    assert_eq!(extract_tag(xml, "friendlyName").as_deref(), Some("Marek's Router"));
    assert_eq!(extract_tag(xml, "modelName").as_deref(), Some("A & B"));
}

#[test]
fn missing_and_empty_tags_yield_none() {
    assert_eq!(extract_tag("<a>x</a>", "b"), None);
    assert_eq!(extract_tag("<b>   </b>", "b"), None);
}

#[test]
fn parses_ssdp_response_headers_case_insensitively() {
    let response = "HTTP/1.1 200 OK\r\nCACHE-CONTROL: max-age=1800\r\nLocation: http://10.0.3.18:8080/dd.xml\r\nST: urn:schemas-upnp-org:service:RenderingControl:1\r\nSERVER: POSIX UPnP/1.0\r\n\r\n";
    let headers = parse_headers(response);
    assert_eq!(headers.get("location").unwrap(), "http://10.0.3.18:8080/dd.xml");
    assert_eq!(headers.get("server").unwrap(), "POSIX UPnP/1.0");
}

#[test]
fn macos_total_loss_is_not_alive() {
    let output = "--- 10.0.3.99 ping statistics ---\n1 packets transmitted, 0 packets received, 100.0% packet loss\n";
    assert!(!ping_succeeded(false, output));
}

#[test]
fn count_before_skips_filler_words_but_stops_at_punctuation() {
    assert_eq!(count_before("1 received", " received"), Some(1));
    assert_eq!(count_before("3 packets received", " received"), Some(3));
    assert_eq!(count_before("0 packets received", " received"), Some(0));
    assert_eq!(count_before("no numbers here", " received"), None);
    assert_eq!(
        count_before("reply from 1.2.3.4: bytes=32 ttl=64\npackets: sent = 10, received = 9", " received"),
        None,
        "must not wander past punctuation into unrelated numbers"
    );
}

#[test]
fn windows_destination_unreachable_is_not_a_successful_reply() {
    let output = "\nPinging 10.0.3.99 with 32 bytes of data:\nReply from 10.0.3.221: Destination host unreachable.\n\nPing statistics for 10.0.3.99:\n    Packets: Sent = 1, Received = 1, Lost = 0 (0% loss),\n";
    assert!(!ping_succeeded(true, output), "'Destination host unreachable' must not count as a live host");
}

#[test]
fn parses_linux_ping_summary() {
    let output = "PING 10.0.3.1 (10.0.3.1) 56(84) bytes of data.\n\n--- 10.0.3.1 ping statistics ---\n1 packets transmitted, 1 received, 0% packet loss, time 0ms\nrtt min/avg/max/mdev = 1.755/1.755/1.755/0.000 ms\n";
    assert!(ping_succeeded(true, output));
}

#[test]
fn parses_macos_ping_summary() {
    let output = "PING 127.0.0.1 (127.0.0.1): 56 data bytes\n\n--- 127.0.0.1 ping statistics ---\n1 packets transmitted, 1 packets received, 0.0% packet loss\nround-trip min/avg/max/stddev = 0.045/0.045/0.045/0.000 ms\n";
    assert!(ping_succeeded(true, output), "macOS's 'N packets received' wording must be recognised");
}

#[test]
fn parses_windows_ping_output() {
    let output = "\nPinging 10.0.3.1 with 32 bytes of data:\nReply from 10.0.3.1: bytes=32 time=2ms TTL=64\n\nPing statistics for 10.0.3.1:\n    Packets: Sent = 1, Received = 1, Lost = 0 (0% loss),\nApproximate round trip times in milli-seconds:\n    Minimum = 2ms, Maximum = 2ms, Average = 2ms\n";
    assert!(ping_succeeded(true, output));
}

#[test]
fn total_packet_loss_is_not_alive() {
    let output = "1 packets transmitted, 0 received, 100% packet loss, time 0ms\n";
    assert!(!ping_succeeded(false, output));
}

#[test]
fn handles_sub_millisecond_windows_replies() {
    let output = "Reply from 127.0.0.1: bytes=32 time<1ms TTL=128\n    Packets: Sent = 1, Received = 1, Lost = 0 (0% loss),\n";
    assert!(ping_succeeded(true, output));
}

fn network(ssid: &str, channel: u32, band: &str, signal: u8, active: bool) -> WifiNetwork {
    WifiNetwork {
        ssid: ssid.into(),
        bssid: Some(format!("00:00:00:00:{:02x}:{channel:02x}", ssid.len())),
        active,
        signal,
        channel,
        band: band.into(),
        rate: None,
        security: Some("WPA2".into()),
    }
}

#[test]
fn maps_frequencies_to_bands() {
    assert_eq!(band_for_frequency(2437), "2.4 GHz");
    assert_eq!(band_for_frequency(5745), "5 GHz");
    assert_eq!(band_for_frequency(6135), "6 GHz");
    assert_eq!(band_for_frequency(0), "unknown");
}

#[test]
fn converts_dbm_to_the_same_quality_scale_other_platforms_use() {
    assert_eq!(dbm_to_quality(-30), 100);
    assert_eq!(dbm_to_quality(-75), 50);
    assert_eq!(dbm_to_quality(-100), 0);
    assert_eq!(dbm_to_quality(-120), 0);
}

#[test]
fn counts_channel_occupancy_per_band() {
    let networks = vec![
        network("A", 6, "2.4 GHz", 90, false),
        network("B", 6, "2.4 GHz", 80, false),
        network("C", 149, "5 GHz", 97, true),
    ];
    let info = assemble(Some("wlo1".into()), networks);
    let ch6 = info.channel_usage.iter().find(|u| u.channel == 6 && u.band == "2.4 GHz").unwrap();
    assert_eq!(ch6.count, 2);
    assert!(!ch6.is_current);
    let ch149 = info.channel_usage.iter().find(|u| u.channel == 149).unwrap();
    assert!(ch149.is_current, "the connected channel must be marked");
}

#[test]
fn reports_a_clear_channel_when_nothing_overlaps() {
    let networks = vec![network("Mine", 149, "5 GHz", 97, true)];
    let info = assemble(None, networks);
    assert!(info.recommendation.unwrap().contains("clear"));
}

#[test]
fn recommends_a_quieter_24ghz_channel_accounting_for_overlap() {
    let mut networks = vec![network("Mine", 6, "2.4 GHz", 90, true)];
    for i in 0..4 {
        networks.push(network(&format!("Other{i}"), 6, "2.4 GHz", 70, false));
    }
    let info = assemble(None, networks);
    let recommendation = info.recommendation.unwrap();
    assert!(
        recommendation.contains("Channel 1") || recommendation.contains("Channel 11"),
        "expected a non-overlapping suggestion, got: {recommendation}"
    );
}

#[test]
fn counts_contention_even_when_the_platform_reports_no_bssid() {
    let mut networks = vec![network("Mine", 6, "2.4 GHz", 90, true)];
    for i in 0..3 {
        networks.push(network(&format!("Other{i}"), 6, "2.4 GHz", 70, false));
    }
    for network in networks.iter_mut() {
        network.bssid = None;
    }
    let info = assemble(None, networks);
    let recommendation = info.recommendation.unwrap();
    assert!(!recommendation.contains("clear"), "three overlapping APs must not report a clear channel: {recommendation}");
    assert!(recommendation.contains('3'), "expected a count of 3, got: {recommendation}");
}

#[test]
fn treats_2ghz_neighbours_within_five_channels_as_overlapping() {
    assert!(overlaps(6, "2.4 GHz", 8, "2.4 GHz"), "channel 8 bleeds into 6");
    assert!(!overlaps(1, "2.4 GHz", 11, "2.4 GHz"), "1 and 11 are non-overlapping");
    assert!(!overlaps(36, "5 GHz", 40, "5 GHz"), "5 GHz channels do not overlap");
    assert!(!overlaps(6, "2.4 GHz", 6, "5 GHz"), "different bands never overlap");
}

#[test]
fn ignores_unknown_band_entries_in_the_congestion_chart() {
    let networks = vec![network("A", 0, "unknown", 50, false), network("B", 6, "2.4 GHz", 60, false)];
    let info = assemble(None, networks);
    assert_eq!(info.channel_usage.len(), 1);
}
