use netdiag::doctor::{
    arp_report, assemble, dns_report, icmp_report, interfaces_report, mdns_report, netbios_report, oui_report,
    plural, ssdp_report, summarize, tally, tcp_report, trace_candidates, traceroute_report, wifi_report,
    CapabilityReport, CapabilityStatus, Tier,
};
use netdiag::oui::OuiTableInfo;
use netdiag::platform::ToolRef;

#[test]
fn tier_ordering_puts_critical_first() {
    let mut tiers = vec![Tier::Optional, Tier::Critical, Tier::Important];
    tiers.sort();
    assert_eq!(tiers, vec![Tier::Critical, Tier::Important, Tier::Optional]);
}

#[test]
fn pluralises_correctly() {
    assert_eq!(plural(1, "interface"), "1 interface");
    assert_eq!(plural(2, "interface"), "2 interfaces");
    assert_eq!(plural(1, "entry"), "1 entry");
    assert_eq!(plural(3, "entry"), "3 entries");
}

fn report(label: &str, tier: Tier, status: CapabilityStatus) -> CapabilityReport {
    let mut r = CapabilityReport::ok("id", label, "purpose", tier, None, "detail".to_string());
    r.status = status;
    r
}

#[test]
fn counts_match_the_capability_list() {
    let caps = vec![
        report("A", Tier::Critical, CapabilityStatus::Working),
        report("B", Tier::Important, CapabilityStatus::Degraded),
        report("C", Tier::Optional, CapabilityStatus::Missing),
    ];
    let r = assemble("Linux".into(), "now".into(), caps);
    assert_eq!(r.counts.ok + r.counts.degraded + r.counts.missing, r.capabilities.len());
    assert_eq!(r.blocked, r.counts.critical_missing > 0);
    assert_eq!(r.summary, "1 working, 1 limited, 1 unavailable \u{2014} some features are reduced");
}

#[test]
fn a_missing_critical_capability_blocks_and_is_named() {
    let caps = vec![
        report("Network interface", Tier::Critical, CapabilityStatus::Missing),
        report("ICMP ping", Tier::Important, CapabilityStatus::Missing),
        report("TCP port scanning", Tier::Critical, CapabilityStatus::Missing),
    ];
    let c = tally(&caps);
    assert_eq!(c.missing, 3);
    assert_eq!(c.critical_missing, 2);
    assert_eq!(
        summarize(&caps, &c),
        "Cannot scan \u{2014} required capability unavailable: Network interface, TCP port scanning"
    );
}

#[test]
fn all_working_says_so() {
    let caps = vec![report("A", Tier::Critical, CapabilityStatus::Working), report("B", Tier::Optional, CapabilityStatus::Working)];
    let r = assemble("Linux".into(), "now".into(), caps);
    assert!(!r.blocked);
    assert_eq!(r.summary, "All 2 checks passed");
}

#[test]
fn an_ok_report_affects_nothing() {
    let r = CapabilityReport::ok("tcp-scan", "TCP port scanning", "p", Tier::Critical, Some("ping"), "d".into());
    assert_eq!(r.status, CapabilityStatus::Working);
    assert_eq!(r.tool.as_deref(), Some("ping"));
    assert!(r.affects.is_empty());
    assert!(r.remedy.is_none());
}

const TOOL: ToolRef = ToolRef { command: "tool", remedy: "install tool" };

#[test]
fn interfaces_are_critical_and_listed() {
    let none = interfaces_report(&vec![]);
    assert_eq!(none.status, CapabilityStatus::Missing);
    assert_eq!(none.tier, Tier::Critical);
    let two = interfaces_report(&vec!["eth0 (10.0.0.2)".to_string(), "wlan0 (10.0.1.2)".to_string()]);
    assert_eq!(two.status, CapabilityStatus::Working);
    assert_eq!(two.detail, "Found 2 usable interfaces: eth0 (10.0.0.2), wlan0 (10.0.1.2)");
}

#[test]
fn arp_states_follow_tool_and_entries() {
    assert_eq!(arp_report(TOOL, false, 0).status, CapabilityStatus::Missing);
    assert_eq!(arp_report(TOOL, false, 0).detail, "`tool` was not found on PATH.");
    assert_eq!(arp_report(TOOL, true, 0).status, CapabilityStatus::Degraded);
    let r = arp_report(TOOL, true, 3);
    assert_eq!(r.status, CapabilityStatus::Working);
    assert_eq!(r.detail, "Readable \u{2014} 3 entries currently cached.");
}

#[test]
fn tcp_and_icmp_reports_have_a_status() {
    assert_eq!(tcp_report(true, false).status, CapabilityStatus::Working);
    assert_eq!(tcp_report(false, false).status, CapabilityStatus::Missing);
    assert_eq!(icmp_report(TOOL, true, true, true).status, CapabilityStatus::Working);
    assert_eq!(icmp_report(TOOL, false, false, true).status, CapabilityStatus::Missing);
}

#[test]
fn mdns_failure_is_explained() {
    assert_eq!(mdns_report(None).status, CapabilityStatus::Working);
    let r = mdns_report(Some("denied".to_string()));
    assert_eq!(r.status, CapabilityStatus::Missing);
    assert_eq!(r.detail, "Could not join the mDNS multicast group: denied");
    assert_eq!(r.affects.len(), 3);
}

#[test]
fn ssdp_distinguishes_bind_from_send() {
    assert_eq!(ssdp_report(None, true).status, CapabilityStatus::Working);
    let unsent = ssdp_report(None, false);
    assert_eq!(unsent.detail, "Could not send to the SSDP multicast address.");
    let unbound = ssdp_report(Some("no socket".to_string()), false);
    assert_eq!(unbound.detail, "Could not open a UDP socket: no socket");
    assert_eq!(unbound.remedy.as_deref(), Some("Allow this application to open UDP sockets."));
}

#[test]
fn dns_lists_the_resolvers() {
    assert_eq!(dns_report(&vec![]).status, CapabilityStatus::Missing);
    let r = dns_report(&vec!["10.0.0.1".to_string()]);
    assert_eq!(r.status, CapabilityStatus::Working);
    assert_eq!(r.detail, "1 resolver configured: 10.0.0.1");
}

#[test]
fn traceroute_names_what_was_looked_for() {
    assert_eq!(trace_candidates(true), vec!["tracert".to_string()]);
    let missing = traceroute_report(TOOL, false, &vec![]);
    assert_eq!(missing.detail, "None of mtr, tracepath, traceroute were found on PATH.");
    let found = traceroute_report(TOOL, false, &vec!["tracepath".to_string(), "traceroute".to_string()]);
    assert_eq!(found.tool.as_deref(), Some("tracepath"));
    assert_eq!(found.detail, "Available: tracepath, traceroute. Using tracepath.");
}

#[test]
fn wifi_without_data_is_degraded_not_missing() {
    assert_eq!(wifi_report(TOOL, false, false, 0, None).status, CapabilityStatus::Missing);
    let ok = wifi_report(TOOL, true, true, 1, None);
    assert_eq!(ok.detail, "Working \u{2014} 1 network visible.");
    let quiet = wifi_report(TOOL, true, false, 0, None);
    assert_eq!(quiet.status, CapabilityStatus::Degraded);
    assert_eq!(quiet.detail, "The Wi-Fi survey returned no data.");
    let said = wifi_report(TOOL, true, false, 0, Some("Location permission needed".to_string()));
    assert_eq!(said.detail, "Location permission needed");
}

#[test]
fn netbios_needs_only_udp() {
    assert_eq!(netbios_report(None).status, CapabilityStatus::Working);
    assert_eq!(netbios_report(Some("x".to_string())).detail, "Could not open a UDP socket: x");
}

#[test]
fn oui_report_cuts_the_stamp_to_a_date() {
    let empty = oui_report(&OuiTableInfo { generated_at: String::new(), prefixes: 0 });
    assert_eq!(empty.status, CapabilityStatus::Missing);
    let r = oui_report(&OuiTableInfo { generated_at: "2024-05-01T10:00:00Z".to_string(), prefixes: 42 });
    assert_eq!(r.detail, "42 IEEE prefixes loaded (generated 2024-05-01). Bundled with the app \u{2014} works offline.");
    let bare = oui_report(&OuiTableInfo { generated_at: String::new(), prefixes: 7 });
    assert_eq!(bare.detail, "7 IEEE prefixes loaded. Bundled with the app \u{2014} works offline.");
}
