use netdiag::scan::banners::is_banner_port;
use netdiag::scan::dnsmsg::{build_query, encode_name, parse, txt_to_map, RData, CLASS_IN, TYPE_A};

#[test]
fn classifies_banner_ports() {
    assert!(is_banner_port(80));
    assert!(is_banner_port(443));
    assert!(is_banner_port(22));
    assert!(is_banner_port(8123));
    assert!(!is_banner_port(6053), "ESPHome's API port speaks no known banner protocol");
    assert!(!is_banner_port(9100));
}

#[test]
fn round_trips_a_query() {
    let query = build_query(0x1234, "example.com", TYPE_A, true);
    let parsed = parse(&query).expect("query should parse");
    assert_eq!(parsed.id, 0x1234);
    assert_eq!(parsed.questions.len(), 1);
    assert_eq!(parsed.questions[0].0, "example.com");
    assert_eq!(parsed.questions[0].1, TYPE_A);
}

#[test]
fn decodes_compressed_names() {
    let mut buf = Vec::new();
    buf.extend_from_slice(&0u16.to_be_bytes());
    buf.extend_from_slice(&0x8400u16.to_be_bytes());
    buf.extend_from_slice(&1u16.to_be_bytes());
    buf.extend_from_slice(&1u16.to_be_bytes());
    buf.extend_from_slice(&0u16.to_be_bytes());
    buf.extend_from_slice(&0u16.to_be_bytes());
    let name_offset = buf.len();
    encode_name("a.local", &mut buf);
    buf.extend_from_slice(&TYPE_A.to_be_bytes());
    buf.extend_from_slice(&CLASS_IN.to_be_bytes());

    buf.push(0xC0);
    buf.push(name_offset as u8);
    buf.extend_from_slice(&TYPE_A.to_be_bytes());
    buf.extend_from_slice(&CLASS_IN.to_be_bytes());
    buf.extend_from_slice(&120u32.to_be_bytes());
    buf.extend_from_slice(&4u16.to_be_bytes());
    buf.extend_from_slice(&[10, 0, 3, 22]);

    let parsed = parse(&buf).expect("should parse");
    assert_eq!(parsed.records.len(), 1);
    assert_eq!(parsed.records[0].name, "a.local");
    assert!(matches!(parsed.records[0].data, RData::A(a) if a == (10u32 << 24) | (3 << 8) | 22));
}

#[test]
fn a_compression_loop_terminates_instead_of_hanging() {
    let mut buf = vec![0u8; 12];
    buf[4] = 0;
    buf[5] = 1;
    let offset = buf.len();
    buf.push(0xC0);
    buf.push(offset as u8);
    buf.extend_from_slice(&TYPE_A.to_be_bytes());
    buf.extend_from_slice(&CLASS_IN.to_be_bytes());
    let _ = parse(&buf);
}

#[test]
fn parses_txt_key_value_pairs_and_bare_flags() {
    let strings = vec!["platform=ESP32".to_string(), "board=esp32dev".to_string(), "flag".to_string(), "empty=".to_string()];
    let map = txt_to_map(&strings);
    assert_eq!(map.get("platform").unwrap(), "ESP32");
    assert_eq!(map.get("board").unwrap(), "esp32dev");
    assert_eq!(map.get("flag").unwrap(), "");
    assert_eq!(map.get("empty").unwrap(), "");
}

#[test]
fn truncated_packets_do_not_panic() {
    for len in 0..12 {
        let _ = parse(&vec![0u8; len]);
    }
    let _ = parse(&[0, 1, 0x81, 0x80, 0, 1, 0, 1, 0, 0, 0, 0, 3, b'a']);
}
