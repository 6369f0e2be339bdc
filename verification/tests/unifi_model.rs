use netdiag::unifi::model::{
    crowded_ports, degraded_link_ports, lookup_client, wan_triage, HealthReading, summarize_neighbor_aps, to_seconds, LooseValue, MacTableEntry,
    PortEntry, UnifiAlarmRecord, UnifiClientRecord, UnifiDeviceRecord, UnifiEventRecord, UnifiNetworkConf,
    UnifiNetworkSummary, UnifiRogueApRecord,
};

fn record() -> UnifiClientRecord {
    UnifiClientRecord::default()
}

fn managed(name: Option<&str>, model: Option<&str>, kind: Option<&str>) -> UnifiDeviceRecord {
    UnifiDeviceRecord {
        mac: None,
        ip: None,
        name: name.map(|s| s.to_string()),
        model: model.map(|s| s.to_string()),
        kind: kind.map(|s| s.to_string()),
        version: None,
        adopted: None,
        state: None,
        uptime: None,
        upgradable: None,
        port_table: None,
    }
}

fn port(idx: Option<u32>, name: Option<&str>, up: Option<bool>, speed: Option<i64>, macs: &[&str]) -> PortEntry {
    PortEntry {
        port_idx: idx,
        name: name.map(|s| s.to_string()),
        up,
        speed,
        poe_enable: None,
        mac_table: if macs.is_empty() {
            None
        } else {
            Some(macs.iter().map(|m| MacTableEntry { mac: Some(m.to_string()), vlan: None }).collect())
        },
    }
}

fn event(key: Option<&str>, time: Option<i64>, user: Option<&str>, guest: Option<&str>) -> UnifiEventRecord {
    UnifiEventRecord {
        key: key.map(|s| s.to_string()),
        subsystem: None,
        time,
        msg: None,
        user: user.map(|s| s.to_string()),
        guest: guest.map(|s| s.to_string()),
        hostname: None,
        ap: None,
        ssid: None,
    }
}

fn conf(name: Option<&str>, subnet: Option<&str>, vlan: Option<LooseValue>) -> UnifiNetworkConf {
    UnifiNetworkConf {
        name: name.map(|s| s.to_string()),
        purpose: Some("corporate".into()),
        ip_subnet: subnet.map(|s| s.to_string()),
        vlan,
        enabled: Some(true),
        vlan_enabled: None,
        dhcpd_enabled: Some(true),
    }
}

fn rogue(essid: &str, signal: i32) -> UnifiRogueApRecord {
    UnifiRogueApRecord {
        essid: Some(essid.to_string()),
        bssid: None,
        channel: None,
        signal: Some(signal),
        rssi: None,
        security: None,
        oui: None,
    }
}

#[test]
fn parses_a_client_record_and_normalizes_the_mac() {
    let mut r = record();
    r.mac = Some("e0:63:da:82:1b:35".into());
    r.hostname = Some("my-laptop".into());
    r.name = Some("Marek's Laptop".into());
    r.dev_vendor = Some("Intel".into());
    r.os_name = Some("Linux".into());
    r.vlan = Some(10);
    assert_eq!(r.best_name().as_deref(), Some("Marek's Laptop"), "alias beats hostname");
    assert_eq!(r.fingerprint().as_deref(), Some("Intel \u{b7} Linux"));
}

#[test]
fn unknown_and_missing_fields_do_not_break_parsing() {
    let r = record();
    assert!(r.mac.is_none());
    assert!(r.best_name().is_none());
    assert!(r.fingerprint().is_none());
}

#[test]
fn numeric_fingerprint_ids_are_skipped_rather_than_shown() {
    let mut r = record();
    r.dev_family = Some("Phone".into());
    assert_eq!(r.fingerprint().as_deref(), Some("Phone"));
}

#[test]
fn falls_back_to_hostname_when_no_alias_is_set() {
    let mut r = record();
    r.hostname = Some("esp-kitchen".into());
    r.name = Some("  ".into());
    assert_eq!(r.best_name().as_deref(), Some("esp-kitchen"));
}

#[test]
fn describes_devices_with_and_without_a_name() {
    let named = managed(Some("ACProSalon"), Some("U7PG2"), Some("uap"));
    assert_eq!(named.describe(), "ACProSalon (U7PG2)");
    assert_eq!(named.kind_label(), "Access point");
    let unnamed = managed(None, Some("USMINI"), Some("usw"));
    assert_eq!(unnamed.describe(), "USMINI");
    assert_eq!(unnamed.kind_label(), "Switch");
}

#[test]
fn active_clients_take_precedence_over_historical_ones() {
    let mut old = record();
    old.mac = Some("aa:bb:cc:dd:ee:ff".into());
    old.ip = Some("10.0.3.99".into());
    let mut current = record();
    current.mac = Some("aa:bb:cc:dd:ee:ff".into());
    current.ip = Some("10.0.3.50".into());
    let active = vec![current];
    let known = vec![old];
    let found = lookup_client(&active, &known, "aa:bb:cc:dd:ee:ff").unwrap();
    assert_eq!(found.ip.as_deref(), Some("10.0.3.50"), "the historical record's stale IP must not win");
}

#[test]
fn event_times_normalize_from_milliseconds() {
    let e = event(Some("EVT_WU_Disconnected"), Some(1754400000000), Some("aa:bb:cc:dd:ee:ff"), None);
    assert_eq!(e.time_seconds(), Some(1_754_400_000));
    assert!(e.is_disconnect());
    assert_eq!(e.client_mac(), Some("aa:bb:cc:dd:ee:ff"));
    let seconds = event(Some("EVT_WU_Connected"), Some(1754400000), None, None);
    assert_eq!(seconds.time_seconds(), Some(1_754_400_000), "already-seconds passes through");
    assert!(!seconds.is_disconnect());
    assert_eq!(to_seconds(1754400000000), 1_754_400_000);
}

#[test]
fn guest_events_still_yield_a_client_mac() {
    let e = event(Some("EVT_WG_Disconnected"), None, None, Some("aa:bb:cc:dd:ee:01"));
    assert_eq!(e.client_mac(), Some("aa:bb:cc:dd:ee:01"));
}

#[test]
fn alarms_summarize_verbatim_and_archived_ones_vanish() {
    let active = UnifiAlarmRecord {
        key: Some("EVT_AP_Lost_Contact".into()),
        msg: Some("AP ACProSalon was disconnected".into()),
        time: Some(1754400000000),
        subsystem: Some("wlan".into()),
        archived: None,
    };
    let summary = active.summarize().unwrap();
    assert_eq!(summary.message, "AP ACProSalon was disconnected");
    assert_eq!(summary.time, Some(1_754_400_000));
    let archived = UnifiAlarmRecord { key: None, msg: Some("old news".into()), time: None, subsystem: None, archived: Some(true) };
    assert!(archived.summarize().is_none());
    let keyed = UnifiAlarmRecord { key: Some("EVT_SOMETHING".into()), msg: None, time: None, subsystem: None, archived: None };
    assert_eq!(keyed.summarize().unwrap().message, "EVT_SOMETHING");
}

#[test]
fn a_foreign_ap_broadcasting_our_ssid_is_an_evil_twin() {
    let mut first = rogue("ADOFULL", -88);
    first.bssid = Some("aa:aa:aa:aa:aa:01".into());
    first.security = Some("open".into());
    let mut second = rogue("NextDoorWifi", -40);
    second.bssid = Some("bb:bb:bb:bb:bb:02".into());
    let records = vec![first, second];
    let own = vec!["ADOFULL".to_string()];
    let (summaries, total) = summarize_neighbor_aps(&records, &own, 30);
    assert_eq!(total, 2);
    assert!(summaries[0].evil_twin, "the twin sorts first despite weaker signal");
    assert_eq!(summaries[0].ssid.as_deref(), Some("ADOFULL"));
    assert!(!summaries[1].evil_twin);
}

#[test]
fn the_neighbor_cap_never_drops_an_evil_twin() {
    let mut records: Vec<UnifiRogueApRecord> = (0..40).map(|i| rogue(&format!("neighbor-{i}"), -30 - i)).collect();
    records.push(rogue("ADOFULL", -90));
    let own = vec!["ADOFULL".to_string()];
    let (summaries, total) = summarize_neighbor_aps(&records, &own, 30);
    assert_eq!(total, 41);
    assert_eq!(summaries.len(), 30, "cap holds");
    assert!(summaries.iter().any(|s| s.evil_twin), "twin survived the cut");
}

#[test]
fn a_cap_smaller_than_the_twins_keeps_every_twin() {
    let records = vec![rogue("A", -20), rogue("OURS", -80), rogue("OURS", -85), rogue("B", -30)];
    let own = vec!["OURS".to_string()];
    let (summaries, _) = summarize_neighbor_aps(&records, &own, 1);
    assert_eq!(summaries.len(), 2);
    assert!(summaries.iter().all(|s| s.evil_twin));
}

#[test]
fn parses_network_configs_and_canonicalizes_the_subnet() {
    let record = conf(Some("IoT"), Some("10.0.30.1/24"), Some(LooseValue::Unsigned(30)));
    let summary = UnifiNetworkSummary::from_conf(&record);
    assert_eq!(summary.name, "IoT");
    assert_eq!(summary.subnet.as_deref(), Some("10.0.30.0/24"));
    assert_eq!(summary.vlan, Some(30));
    assert!(summary.enabled);
    assert_eq!(summary.dhcp, Some(true));
}

#[test]
fn vlan_ids_parse_from_both_number_and_string_forms() {
    assert_eq!(conf(None, None, Some(LooseValue::Unsigned(30))).vlan_id(), Some(30));
    assert_eq!(conf(None, None, Some(LooseValue::Text("30".into()))).vlan_id(), Some(30), "older releases send a string");
    assert_eq!(conf(None, None, Some(LooseValue::Text("untagged".into()))).vlan_id(), None);
}

#[test]
fn a_wide_configured_subnet_survives_canonicalization() {
    let summary = UnifiNetworkSummary::from_conf(&conf(Some("Big"), Some("10.20.30.1/16"), None));
    assert_eq!(summary.subnet.as_deref(), Some("10.20.0.0/16"));
}

#[test]
fn radio_protocols_map_to_wifi_generations() {
    let gen = |proto: &str| UnifiClientRecord { radio_proto: Some(proto.into()), ..Default::default() }.wifi_generation();
    assert_eq!(gen("ax").as_deref(), Some("Wi-Fi 6 (ax)"));
    assert_eq!(gen("ac").as_deref(), Some("Wi-Fi 5 (ac)"));
    assert_eq!(gen("ng").as_deref(), Some("Wi-Fi 4 (n)"));
    assert_eq!(gen("na").as_deref(), Some("Wi-Fi 4 (n)"));
    assert_eq!(gen("be").as_deref(), Some("Wi-Fi 7 (be)"));
    assert_eq!(gen("g").as_deref(), Some("802.11g"));
    assert_eq!(gen("xy").as_deref(), Some("xy"));
    assert_eq!(gen("  ").as_deref(), None);
    assert_eq!(UnifiClientRecord::default().wifi_generation(), None);
}

#[test]
fn abnormal_states_are_labelled_and_normal_ones_are_not() {
    let device = |state: i32, adopted: bool| {
        let mut d = managed(None, None, None);
        d.state = Some(state);
        d.adopted = Some(adopted);
        d
    };
    assert_eq!(device(1, true).state_problem(), None, "connected is normal");
    assert_eq!(device(6, true).state_problem().as_deref(), Some("Heartbeat missed"));
    assert_eq!(device(0, true).state_problem().as_deref(), Some("Disconnected"));
    assert_eq!(device(42, true).state_problem().as_deref(), Some("State 42"), "unknown states surface rather than hide");
    assert_eq!(device(0, false).state_problem(), None, "unadopted devices already carry their own badge");
}

#[test]
fn a_slow_port_on_a_gigabit_switch_is_degraded() {
    let mut switch = managed(Some("USW"), Some("US8"), Some("usw"));
    switch.port_table = Some(vec![
        port(Some(1), None, Some(true), Some(1000), &[]),
        port(Some(2), Some("Study"), Some(true), Some(100), &[]),
        port(Some(3), None, Some(false), Some(0), &[]),
        port(Some(4), None, Some(true), Some(10), &[]),
    ]);
    let degraded = degraded_link_ports(&vec![switch]);
    assert_eq!(degraded.len(), 2, "down ports are not degraded, just off");
    assert_eq!(degraded[0].port, 2);
    assert_eq!(degraded[0].speed_mbps, 100);
    assert_eq!(degraded[0].fastest_mbps, 1000);
    assert_eq!(degraded[1].port, 4);
}

#[test]
fn an_all_fast_ethernet_switch_has_no_degraded_links() {
    let mut switch = managed(Some("OldSwitch"), None, Some("usw"));
    switch.port_table = Some(vec![port(Some(1), None, Some(true), Some(100), &[]), port(Some(2), None, Some(true), Some(100), &[])]);
    assert!(degraded_link_ports(&vec![switch]).is_empty());
}

#[test]
fn detects_ports_hiding_an_unmanaged_switch() {
    let mut switch = managed(Some("USW_MINI"), Some("USMINI"), Some("usw"));
    switch.port_table = Some(vec![
        port(Some(1), None, None, None, &["aa:aa:aa:aa:aa:aa"]),
        port(Some(4), Some("Office"), None, None, &["bb:bb:bb:bb:bb:bb", "cc:cc:cc:cc:cc:cc", "dd:dd:dd:dd:dd:dd"]),
    ]);
    let crowded = crowded_ports(&vec![switch]);
    assert_eq!(crowded.len(), 1, "only the multi-MAC port is notable");
    assert_eq!(crowded[0].port, 4);
    assert_eq!(crowded[0].macs.len(), 3);
    assert_eq!(crowded[0].port_name.as_deref(), Some("Office"));
}

fn health(subsystem: &str, status: &str) -> HealthReading {
    HealthReading { subsystem: subsystem.to_string(), status: status.to_string(), latency: None, drops: None }
}

fn whole_ms(ms: f64) -> Option<String> {
    Some(format!("{ms:.0}"))
}

#[test]
fn a_healthy_internet_link_points_the_finger_at_the_lan() {
    let mut www = health("www", "ok");
    www.latency = whole_ms(11.6);
    let verdict = wan_triage(&vec![health("wan", "ok"), www]).unwrap();

    assert!(verdict.contains("healthy"));
    assert!(verdict.contains("12 ms"), "latency is rounded in: {verdict}");
    assert!(verdict.contains("local network"));
}

#[test]
fn a_broken_internet_link_points_upstream() {
    let mut www = health("www", "error");
    www.latency = whole_ms(340.0);
    www.drops = Some(7);
    let verdict = wan_triage(&vec![www]).unwrap();

    assert!(verdict.contains("upstream"));
    assert!(verdict.contains("340 ms"));
    assert!(verdict.contains("7 dropped"));
}

#[test]
fn no_conclusive_health_produces_no_verdict() {
    assert_eq!(wan_triage(&vec![]), None);
    assert_eq!(wan_triage(&vec![health("www", "unknown")]), None);
    assert_eq!(wan_triage(&vec![health("lan", "ok")]), None, "LAN says nothing about WAN");
}

#[test]
fn an_unknown_www_falls_back_to_the_wan_port_state() {
    let verdict = wan_triage(&vec![health("www", "unknown"), health("wan", "error")]).unwrap();
    assert!(verdict.contains("upstream"));
}

#[test]
fn triage_sentences_are_exact() {
    let mut www = health("www", "warning");
    www.latency = whole_ms(80.2);
    www.drops = Some(0);
    assert_eq!(
        wan_triage(&vec![www]).unwrap(),
        "The controller reports trouble on the internet link (latency 80 ms) \u{2014} slowness is likely upstream, not on your LAN."
    );
    assert_eq!(
        wan_triage(&vec![health("wan", "ok")]).unwrap(),
        "The controller reports the internet link healthy \u{2014} if something feels slow, the cause is on the local network."
    );
}
