use netdiag::doctor::{CapabilityReport, CapabilityStatus, Tier};
use netdiag::scan::dns::{outcome_of, query_id, reverse_name};
use netdiag::scan::dnsmsg::{build_query, TYPE_A};
use netdiag::scan::orchestrator::{
    adopt_announced, banner_tasks, capability_warnings, live_addresses, ports_detail, scan_addresses, ScanHandle,
    advance, PhaseOutcome, ScanProgress, ScanRun,
};
use netdiag::scan::ports::{report_due, tally, ProbeOutcome};
use netdiag::types::{PhaseStatus, PortInfo, ScanPhase, ScanTarget, TargetSource};

fn ip(a: u32, b: u32, c: u32, d: u32) -> u32 {
    (a << 24) | (b << 16) | (c << 8) | d
}

fn target(cidr: &str, source: TargetSource) -> ScanTarget {
    ScanTarget { cidr: cidr.into(), source, host_count: 254, note: None }
}

#[test]
fn a_new_run_lists_every_phase_pending_in_order() {
    let run = ScanRun::new();
    assert_eq!(run.phases.len(), 8);
    assert_eq!(run.phases[0].phase, ScanPhase::Host);
    assert_eq!(run.phases[7].phase, ScanPhase::Correlate);
    assert!(run.phases.iter().all(|p| p.status == PhaseStatus::Pending));
    assert_eq!(run.phases[2].label, "Ping sweep & MAC harvest");
}

#[test]
fn phases_move_through_running_to_done_and_keep_their_detail() {
    let mut run = ScanRun::new();
    match run.start(ScanPhase::Sweep) {
        ScanProgress::Phases(p) => assert_eq!(p[2].status, PhaseStatus::Running),
        _ => panic!("expected phases"),
    }
    run.progress(ScanPhase::Sweep, 5, 10);
    run.finish(ScanPhase::Sweep, PhaseStatus::Done, Some("3 host(s) replied".into()));
    run.finish(ScanPhase::Sweep, PhaseStatus::Done, None);
    assert_eq!(run.phases[2].status, PhaseStatus::Done);
    assert_eq!(run.phases[2].detail.as_deref(), Some("3 host(s) replied"));
    assert_eq!(run.phases[2].progress.unwrap().current, 5);
    assert_eq!(run.phases[1].status, PhaseStatus::Pending);
    match run.warn("careful".into()) {
        ScanProgress::Warning(w) => assert_eq!(w, "careful"),
        _ => panic!("expected a warning"),
    }
    assert_eq!(run.warnings, vec!["careful".to_string()]);
}

#[test]
fn a_cancelled_handle_stays_cancelled_across_clones() {
    let handle = ScanHandle::default();
    let other = handle.clone();
    assert!(!handle.is_cancelled());
    other.cancel();
    assert!(handle.is_cancelled());
}

#[test]
fn only_missing_non_optional_capabilities_warn() {
    let mut a = CapabilityReport::ok("icmp", "ICMP ping", "p", Tier::Important, None, "not found".into());
    a.status = CapabilityStatus::Missing;
    let mut b = CapabilityReport::ok("mdns", "mDNS", "p", Tier::Optional, None, "blocked".into());
    b.status = CapabilityStatus::Missing;
    let c = CapabilityReport::ok("tcp", "TCP", "p", Tier::Critical, None, "fine".into());
    assert_eq!(capability_warnings(&vec![a, b, c]), vec!["ICMP ping unavailable \u{2014} not found".to_string()]);
}

#[test]
fn announced_off_subnet_hosts_add_their_slash_24_once() {
    let mut targets = vec![target("10.0.3.0/24", TargetSource::Local)];
    let hinted = vec![ip(10, 0, 3, 7), ip(10, 0, 7, 9), ip(10, 0, 7, 20), ip(8, 8, 8, 8)];
    let warnings = adopt_announced(&mut targets, &hinted);
    assert_eq!(targets.len(), 2);
    assert_eq!(targets[1].cidr, "10.0.7.0/24");
    assert_eq!(targets[1].source, TargetSource::Discovered);
    assert_eq!(targets[1].host_count, 254);
    assert_eq!(targets[1].note.as_deref(), Some("announced by a device at 10.0.7.9"));
    assert_eq!(
        warnings,
        vec!["Discovered off-subnet range 10.0.7.0/24 announced by 10.0.7.9 \u{2014} including it in the scan".to_string()]
    );
}

#[test]
fn the_sweep_covers_each_address_once_in_order() {
    let targets = vec![target("10.0.3.0/30", TargetSource::Local), target("10.0.3.0/31", TargetSource::Manual), target("junk", TargetSource::Manual)];
    assert_eq!(scan_addresses(&targets), vec![ip(10, 0, 3, 0), ip(10, 0, 3, 1), ip(10, 0, 3, 2)]);
    let targets = vec![target("10.0.3.4/31", TargetSource::Manual), target("10.0.3.0/24", TargetSource::Local)];
    let all = scan_addresses(&targets);
    assert_eq!(all.len(), 254);
    assert_eq!(all[0], ip(10, 0, 3, 1));
    assert_eq!(all[253], ip(10, 0, 3, 254));
    let live = live_addresses(&vec![ip(10, 0, 3, 9), ip(192, 168, 0, 1), ip(10, 0, 3, 2), ip(10, 0, 3, 9)], &all);
    assert_eq!(live, vec![ip(10, 0, 3, 2), ip(10, 0, 3, 9)]);
}

fn open(ip: u32, ports: &[u16]) -> (u32, Vec<PortInfo>) {
    (ip, ports.iter().map(|p| PortInfo { port: *p, protocol: "tcp".into(), service: None, banner: None }).collect())
}

#[test]
fn banners_are_read_only_from_ports_that_speak_first_or_answer_http() {
    let hosts = vec![open(1, &[22, 6053, 80]), open(2, &[9100, 443])];
    assert_eq!(banner_tasks(&hosts), vec![(1, 22), (1, 80), (2, 443)]);
    assert_eq!(ports_detail(&hosts), "5 open port(s) across 2 host(s)");
}

#[test]
fn probe_outcomes_are_tallied_per_host_in_port_order() {
    let results = vec![
        (ip(10, 0, 3, 5), 443, ProbeOutcome::Open),
        (ip(10, 0, 3, 5), 22, ProbeOutcome::Open),
        (ip(10, 0, 3, 6), 80, ProbeOutcome::Refused),
        (ip(10, 0, 3, 6), 81, ProbeOutcome::Refused),
        (ip(10, 0, 3, 7), 80, ProbeOutcome::Filtered),
    ];
    let r = tally(&results);
    assert_eq!(r.open.len(), 1);
    assert_eq!(r.open[0].0, ip(10, 0, 3, 5));
    let ports: Vec<u16> = r.open[0].1.iter().map(|p| p.port).collect();
    assert_eq!(ports, vec![22, 443]);
    assert_eq!(r.open[0].1[0].service.as_deref(), Some("ssh"));
    assert_eq!(r.refused_hosts, vec![ip(10, 0, 3, 6)]);
    assert!(report_due(100, 0, 2000));
    assert!(!report_due(150, 100, 2000));
    assert!(report_due(7, 0, 7));
}

#[test]
fn a_dns_answer_becomes_an_outcome() {
    let query = build_query(7, "example.com", TYPE_A, true);
    let r = outcome_of(&query, std::time::Duration::from_millis(3)).ok().unwrap();
    assert!(r.answers.is_empty());
    assert_eq!(r.rcode, 0);
    assert!(outcome_of(&[1, 2, 3], std::time::Duration::from_millis(3)).is_err());
    assert_eq!(reverse_name(ip(10, 0, 3, 22)), "22.3.0.10.in-addr.arpa");
    assert_eq!(query_id(0x0001_0000), 0x5EED);
}

fn outcome(warnings: &[&str]) -> PhaseOutcome {
    PhaseOutcome {
        warnings: warnings.iter().map(|w| w.to_string()).collect(),
        detail: Some("detail".to_string()),
        blocked: None,
        succeeded: true,
    }
}

#[test]
fn phases_advance_in_run_order_and_keep_warnings() {
    let mut run = ScanRun::new();
    assert_eq!(advance(&mut run, ScanPhase::Host, outcome(&["a", "b"]), false), Ok(Some(ScanPhase::Announce)));
    assert_eq!(run.warnings, vec!["a".to_string(), "b".to_string()]);
    assert_eq!(run.phases[0].status, PhaseStatus::Done);
    assert_eq!(advance(&mut run, ScanPhase::Connectivity, outcome(&[]), false), Ok(Some(ScanPhase::Wifi)));
    assert_eq!(advance(&mut run, ScanPhase::Correlate, outcome(&[]), true), Ok(None));
}

#[test]
fn a_blocked_host_stops_the_scan_with_the_summary() {
    let mut run = ScanRun::new();
    let mut o = outcome(&[]);
    o.blocked = Some("No network".to_string());
    assert_eq!(advance(&mut run, ScanPhase::Host, o, false), Err("No network".to_string()));
    assert_eq!(run.phases[0].status, PhaseStatus::Error);
    assert_eq!(run.phases[0].detail.as_deref(), Some("No network"));
}

#[test]
fn cancelling_stops_after_the_phase_and_wifi_without_data_is_skipped() {
    let mut run = ScanRun::new();
    let mut o = outcome(&[]);
    o.succeeded = false;
    assert_eq!(advance(&mut run, ScanPhase::Wifi, o, true), Err("Scan cancelled".to_string()));
    assert_eq!(run.phases[6].status, PhaseStatus::Skipped);
}
