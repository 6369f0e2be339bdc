//! Joining controller data to scan results.
//!
//! The useful output is not the union of the two sources: it is the small
//! set of findings that exist only where they disagree. A device the scanner
//! reaches but the controller never leased an address to is interesting
//! precisely because the two views conflict.
use crate::netutil::{parse_cidr_any, parse_cidr_any_spec, parse_ipv4, parse_ipv4_str, ParsedCidr};
use crate::scan::wifi::opt_text_view;
use crate::text::{
    chars_of, contains, copy_text, dec, has, is_text, join, lower_seq, lowercase, owned, push_dec,
    push_str, starts_with, str_eq, string_of, strings_view, trim, trimmed,
};
use crate::types::{Device, DeviceType};
use crate::unifi::model::{
    client_record, crowded_all, crowded_ports, crowded_view, degraded_all, degraded_link_ports,
    degraded_view, describe_spec, device_name, fingerprint_parts, generation_spec, lookup_client,
    name_of_device, nonblank, nonblank_raw, seconds_spec, to_seconds, UnifiClientRecord,
    UnifiDeviceRecord, UnifiEventRecord, UnifiNetworkSummary,
};
use vstd::prelude::*;

verus! {

/// Why a device is considered unaccounted for.
#[derive(Debug, Clone, Copy, PartialEq, Eq, Structural)]
pub enum ShadowReason {
    /// Reachable, but the controller has no record of this MAC at all.
    UnknownToController,
    /// The controller knows the MAC against a different address than the one
    /// answering: an IP conflict, or ARP answered by something else.
    AddressMismatch,
    /// Found by scan with no MAC resolved and no controller match to anchor it.
    Unidentified,
}

pub open spec fn explain_spec(r: ShadowReason) -> Seq<char> {
    match r {
        ShadowReason::UnknownToController => "Responds on the network, but the controller has no record of it. Usually a static IP that never took a DHCP lease, or something plugged in behind an unmanaged switch. Worth confirming you recognise it."@,
        ShadowReason::AddressMismatch => "The controller associates this hardware address with a different IP than the one answering here. That is either an IP conflict or ARP being answered by another device."@,
        ShadowReason::Unidentified => "Answers on the network but could not be tied to any hardware address or controller record, so nothing can vouch for what it is."@,
    }
}

impl ShadowReason {
    pub fn explain(&self) -> (t: &'static str)
        ensures
            t@ == explain_spec(*self),
    {
        match self {
            ShadowReason::UnknownToController => "Responds on the network, but the controller has no record of it. Usually a static IP that never took a DHCP lease, or something plugged in behind an unmanaged switch. Worth confirming you recognise it.",
            ShadowReason::AddressMismatch => "The controller associates this hardware address with a different IP than the one answering here. That is either an IP conflict or ARP being answered by another device.",
            ShadowReason::Unidentified => "Answers on the network but could not be tied to any hardware address or controller record, so nothing can vouch for what it is.",
        }
    }
}

#[derive(Debug, Clone)]
pub struct ShadowDevice {
    pub ip: String,
    pub display_name: String,
    pub mac: Option<String>,
    pub vendor: Option<String>,
    pub open_ports: Vec<u16>,
    pub reason: ShadowReason,
    pub explanation: String,
}

/// A device the controller knows but the scan never saw.
#[derive(Debug, Clone)]
pub struct MissedDevice {
    pub mac: String,
    pub name: String,
    pub ip: Option<String>,
    pub location: Option<String>,
    pub explanation: String,
}

/// A wireless client whose connection the controller itself rates as poor.
#[derive(Debug, Clone)]
pub struct WirelessHealthIssue {
    pub ip: String,
    pub display_name: String,
    pub satisfaction: Option<i32>,
    pub signal_dbm: Option<i32>,
    pub access_point: Option<String>,
    pub explanation: String,
}

/// A switch port linked far below what its own hardware demonstrates.
#[derive(Debug, Clone)]
pub struct DegradedLink {
    pub switch_name: String,
    pub port: u32,
    pub port_name: Option<String>,
    pub speed_mbps: i64,
    pub explanation: String,
}

/// A client the controller's event log shows repeatedly dropping off.
#[derive(Debug, Clone)]
pub struct FlappingClient {
    pub mac: String,
    pub name: String,
    /// Disconnect events inside the event window (24 h).
    pub disconnects: usize,
    pub access_point: Option<String>,
    pub explanation: String,
}

/// A network the controller defines but no scan target covered.
#[derive(Debug, Clone)]
pub struct UnscannedNetwork {
    pub name: String,
    pub subnet: String,
    pub vlan: Option<u32>,
    pub purpose: Option<String>,
    pub explanation: String,
}

#[derive(Debug, Clone)]
pub struct HiddenSegment {
    pub switch_name: String,
    pub port: u32,
    pub port_name: Option<String>,
    pub mac_count: usize,
    pub explanation: String,
}

/// The reconciliation quadrant plus the inferences drawn from it.
#[derive(Debug, Clone)]
pub struct Reconciliation {
    /// Seen by both: the healthy case.
    pub matched: usize,
    /// Seen by the scan, unknown to the controller.
    pub shadow: Vec<ShadowDevice>,
    /// Known to the controller, never seen by the scan.
    pub missed: Vec<MissedDevice>,
    /// Switch ports with several MACs behind them.
    pub hidden_segments: Vec<HiddenSegment>,
    /// Devices whose controller identity contradicts observed behaviour.
    pub identity_conflicts: Vec<String>,
    /// Wireless clients the controller itself rates as struggling.
    pub wireless_issues: Vec<WirelessHealthIssue>,
    /// Switch ports negotiated far below the switch's demonstrated speed.
    pub degraded_links: Vec<DegradedLink>,
    /// Configured networks this scan's targets never covered.
    pub unscanned_networks: Vec<UnscannedNetwork>,
    /// Clients the controller's event log shows repeatedly disconnecting.
    pub flapping_clients: Vec<FlappingClient>,
    pub summary: String,
}

impl Default for Reconciliation {
    fn default() -> (r: Self)
        ensures
            r.matched == 0,
            r.shadow@.len() == 0 && r.missed@.len() == 0 && r.hidden_segments@.len() == 0,
            r.identity_conflicts@.len() == 0 && r.wireless_issues@.len() == 0,
            r.degraded_links@.len() == 0 && r.unscanned_networks@.len() == 0 && r.flapping_clients@.len() == 0,
            r.summary@.len() == 0,
    {
        Reconciliation {
            matched: 0,
            shadow: Vec::new(),
            missed: Vec::new(),
            hidden_segments: Vec::new(),
            identity_conflicts: Vec::new(),
            wireless_issues: Vec::new(),
            degraded_links: Vec::new(),
            unscanned_networks: Vec::new(),
            flapping_clients: Vec::new(),
            summary: String::new(),
        }
    }
}

/* ------------------------------------------------------------------ times */

/// A duration in words: minutes (at least one) under an hour, hours under a
/// day, days beyond; a negative duration counts as none.
pub open spec fn ago_spec(seconds: i64) -> Seq<char> {
    let s = if seconds < 0 { 0 } else { seconds as int };
    if s < 3600 {
        dec((if s / 60 < 1 { 1 } else { s / 60 }) as nat) + " minute(s)"@
    } else if s < 86400 {
        dec((s / 3600) as nat) + " hour(s)"@
    } else {
        dec((s / 86400) as nat) + " day(s)"@
    }
}

pub fn human_ago(seconds: i64) -> (t: String)
    ensures
        t@ == ago_spec(seconds),
{
    let s: u64 = if seconds < 0 {
        0
    } else {
        seconds as u64
    };
    let mut t = String::new();
    if s < 3600 {
        let m = if s / 60 < 1 {
            1
        } else {
            s / 60
        };
        push_dec(&mut t, m);
        push_str(&mut t, " minute(s)");
    } else if s < 86400 {
        push_dec(&mut t, s / 3600);
        push_str(&mut t, " hour(s)");
    } else {
        push_dec(&mut t, s / 86400);
        push_str(&mut t, " day(s)");
    }
    t
}

/* ---------------------------------------------------------- blind spots */

/// WAN and VPN entries are not LANs: nothing on them could be a scan target.
pub open spec fn not_lan(purpose: Option<Seq<char>>) -> bool {
    match purpose {
        Some(p) => p == "wan"@ || p == "wan2"@ || p == "vpn-client"@ || p == "site-vpn"@ || p
            == "remote-user-vpn"@,
        None => false,
    }
}

/// The scanned ranges that read as CIDRs.
pub open spec fn scanned_ranges(cidrs: Seq<Seq<char>>) -> Seq<ParsedCidr>
    decreases cidrs.len(),
{
    if cidrs.len() == 0 {
        seq![]
    } else {
        match parse_cidr_any_spec(cidrs.last()) {
            Ok(c) => scanned_ranges(cidrs.drop_last()).push(c),
            Err(_) => scanned_ranges(cidrs.drop_last()),
        }
    }
}

/// Some target overlaps the range.
pub open spec fn covered(targets: Seq<ParsedCidr>, c: ParsedCidr) -> bool {
    exists|i: int| 0 <= i < targets.len() && #[trigger] targets[i].first <= c.last && c.first <= targets[i].last
}

/// An enabled LAN network with a readable subnet that no target overlaps.
pub open spec fn blind_spot(net: UnifiNetworkSummary, targets: Seq<ParsedCidr>) -> bool {
    &&& net.enabled
    &&& !not_lan(opt_text_view(net.purpose))
    &&& net.subnet is Some
    &&& parse_cidr_any_spec(net.subnet.unwrap()@) is Ok
    &&& !covered(targets, parse_cidr_any_spec(net.subnet.unwrap()@)->Ok_0)
}

/// What a blind spot tells the user.
pub open spec fn blind_spot_text(name: Seq<char>, vlan: Option<u32>, subnet: Seq<char>) -> Seq<char> {
    "The controller defines \""@ + name + "\""@ + (match vlan {
        Some(v) => " (VLAN "@ + dec(v as nat) + ")"@,
        None => Seq::<char>::empty(),
    }) + " at "@ + subnet
        + ", but no target of this scan covered that range \u{2014} devices there are invisible to it. If this machine can route there, add "@
        + subnet + " as an extra scan range; otherwise run a scan from that network."@
}

pub open spec fn unscanned_ok(net: UnifiNetworkSummary, u: UnscannedNetwork) -> bool {
    &&& u.name@ == net.name@
    &&& u.subnet@ == net.subnet.unwrap()@
    &&& u.vlan == net.vlan
    &&& u.purpose == net.purpose
    &&& u.explanation@ == blind_spot_text(net.name@, net.vlan, net.subnet.unwrap()@)
}

/// The blind spots, in order.
pub open spec fn blind_spots(nets: Seq<UnifiNetworkSummary>, targets: Seq<ParsedCidr>) -> Seq<UnifiNetworkSummary>
    decreases nets.len(),
{
    if nets.len() == 0 {
        seq![]
    } else if blind_spot(nets.last(), targets) {
        blind_spots(nets.drop_last(), targets).push(nets.last())
    } else {
        blind_spots(nets.drop_last(), targets)
    }
}

fn parse_ranges(cidrs: &Vec<String>) -> (out: Vec<ParsedCidr>)
    ensures
        out@ == scanned_ranges(strings_view(cidrs@)),
{
    let mut out: Vec<ParsedCidr> = Vec::new();
    let mut i: usize = 0;
    while i < cidrs.len()
        invariant
            i <= cidrs@.len(),
            out@ == scanned_ranges(strings_view(cidrs@).take(i as int)),
        decreases cidrs.len() - i,
    {
        proof {
            assert(strings_view(cidrs@).take(i + 1).drop_last() =~= strings_view(cidrs@).take(i as int));
            assert(strings_view(cidrs@).take(i + 1).last() == cidrs@[i as int]@);
        }
        match parse_cidr_any(cidrs[i].as_str()) {
            Ok(c) => {
                out.push(c);
            },
            Err(_) => {},
        }
        i += 1;
    }
    assert(strings_view(cidrs@).take(cidrs@.len() as int) =~= strings_view(cidrs@));
    out
}

fn is_not_lan(purpose: &Option<String>) -> (b: bool)
    ensures
        b == not_lan(opt_text_view(*purpose)),
{
    match purpose {
        Some(p) => {
            let c = chars_of(p.as_str());
            is_text(&c, "wan") || is_text(&c, "wan2") || is_text(&c, "vpn-client") || is_text(&c, "site-vpn")
                || is_text(&c, "remote-user-vpn")
        },
        None => false,
    }
}

fn copy_opt(s: &Option<String>) -> (r: Option<String>)
    ensures
        r == *s,
{
    match s {
        Some(t) => Some(t.clone()),
        None => None,
    }
}

/// Configured, enabled LAN networks whose subnet no scan target overlaps:
/// the scanner's own blind spots, stated by name.
pub fn find_unscanned_networks(networks: &Vec<UnifiNetworkSummary>, scanned_cidrs: &Vec<String>) -> (out: Vec<UnscannedNetwork>)
    ensures
        out@.len() == blind_spots(networks@, scanned_ranges(strings_view(scanned_cidrs@))).len(),
        forall|k: int|
            0 <= k < out@.len() ==> unscanned_ok(
                blind_spots(networks@, scanned_ranges(strings_view(scanned_cidrs@)))[k],
                #[trigger] out@[k],
            ),
{
    let targets = parse_ranges(scanned_cidrs);
    let ghost tv = targets@;
    let mut out: Vec<UnscannedNetwork> = Vec::new();
    let mut i: usize = 0;
    while i < networks.len()
        invariant
            i <= networks@.len(),
            tv == targets@,
            out@.len() == blind_spots(networks@.take(i as int), tv).len(),
            forall|k: int| 0 <= k < out@.len() ==> unscanned_ok(blind_spots(networks@.take(i as int), tv)[k], #[trigger] out@[k]),
        decreases networks.len() - i,
    {
        proof {
            assert(networks@.take(i + 1).drop_last() =~= networks@.take(i as int));
            assert(networks@.take(i + 1).last() == networks@[i as int]);
        }
        let net = &networks[i];
        i += 1;
        if !net.enabled || is_not_lan(&net.purpose) {
            continue;
        }
        let subnet = match &net.subnet {
            Some(s) => s,
            None => {
                continue;
            },
        };
        let cidr = match parse_cidr_any(subnet.as_str()) {
            Ok(c) => c,
            Err(_) => {
                continue;
            },
        };
        let mut hit = false;
        let mut t: usize = 0;
        while t < targets.len()
            invariant
                t <= targets@.len(),
                tv == targets@,
                hit == exists|j: int| 0 <= j < t && #[trigger] tv[j].first <= cidr.last && cidr.first <= tv[j].last,
            decreases targets.len() - t,
        {
            if targets[t].first <= cidr.last && cidr.first <= targets[t].last {
                hit = true;
            }
            t += 1;
        }
        if hit {
            continue;
        }
        let mut e = owned("The controller defines \"");
        push_str(&mut e, net.name.as_str());
        push_str(&mut e, "\"");
        match net.vlan {
            Some(v) => {
                push_str(&mut e, " (VLAN ");
                push_dec(&mut e, v as u64);
                push_str(&mut e, ")");
            },
            None => {},
        }
        push_str(&mut e, " at ");
        push_str(&mut e, subnet.as_str());
        push_str(
            &mut e,
            ", but no target of this scan covered that range \u{2014} devices there are invisible to it. If this machine can route there, add ",
        );
        push_str(&mut e, subnet.as_str());
        push_str(&mut e, " as an extra scan range; otherwise run a scan from that network.");
        proof {
            assert(e@ =~= blind_spot_text(net.name@, net.vlan, subnet@));
        }
        out.push(
            UnscannedNetwork {
                name: copy_text(&net.name),
                subnet: copy_text(subnet),
                vlan: net.vlan,
                purpose: copy_opt(&net.purpose),
                explanation: e,
            },
        );
    }
    assert(networks@.take(networks@.len() as int) =~= networks@);
    out
}

/* ------------------------------------------------------------- wireless */

/// The signal in dBm, when the `signal` reading is one (negative).
pub open spec fn dbm_of(r: UnifiClientRecord) -> Option<i32> {
    if r.signal is Some && r.signal.unwrap() < 0 {
        r.signal
    } else {
        None
    }
}

/// A poor experience score.
pub open spec fn low_score(r: UnifiClientRecord) -> bool {
    r.satisfaction is Some && r.satisfaction.unwrap() < 60
}

/// A weak signal: at most -75 dBm, or (on the dB-above-noise scale of
/// `rssi`) below 15.
pub open spec fn weak_signal(r: UnifiClientRecord) -> bool {
    (dbm_of(r) is Some && dbm_of(r).unwrap() <= -75) || (r.rssi is Some && 0 <= r.rssi.unwrap() < 15)
}

/// Why the connection is poor, in words.
pub open spec fn wireless_text(r: UnifiClientRecord) -> Seq<char> {
    let parts = (if low_score(r) {
        seq!["the controller scores this client's experience at "@ + int_text(r.satisfaction.unwrap()) + " %"@]
    } else {
        seq![]
    }) + (if weak_signal(r) {
        seq![
            match dbm_of(r) {
                Some(d) => "the signal is weak ("@ + int_text(d) + " dBm)"@,
                None => "the signal is weak"@,
            },
        ]
    } else {
        seq![]
    });
    "This device works, but poorly: "@ + join(parts, ", and "@)
        + ". Usually distance to the access point or a congested channel \u{2014} moving the device or the AP, or switching bands, is the usual fix."@
}

/// A signed integer as `Display` writes it.
pub open spec fn int_text(v: i32) -> Seq<char> {
    if v < 0 {
        "-"@ + dec((-v) as nat)
    } else {
        dec(v as nat)
    }
}

fn push_int(s: &mut String, v: i32)
    ensures
        final(s)@ == old(s)@ + int_text(v),
{
    if v < 0 {
        push_str(s, "-");
        let m: i64 = 0i64 - (v as i64);
        push_dec(s, m as u64);
    } else {
        push_dec(s, v as u64);
    }
}

/// A wireless client the controller rates as struggling: wireless, and a low
/// experience score or a weak signal.
pub open spec fn wireless_issue_ok(d: Device, r: UnifiClientRecord, out: Option<WirelessHealthIssue>) -> bool {
    let wireless = r.is_wired == Some(false) || r.ap_mac is Some;
    if !wireless || (!low_score(r) && !weak_signal(r)) {
        out is None
    } else {
        out matches Some(w) && {
            &&& w.ip@ == d.ip@
            &&& w.display_name@ == d.display_name@
            &&& w.satisfaction == r.satisfaction
            &&& w.signal_dbm == dbm_of(r)
            &&& w.access_point == d.access_point
            &&& w.explanation@ == wireless_text(r)
        }
    }
}

pub fn detect_wireless_issue(device: &Device, record: &UnifiClientRecord) -> (out: Option<WirelessHealthIssue>)
    ensures
        wireless_issue_ok(*device, *record, out),
{
    let wireless = record.is_wired == Some(false) || record.ap_mac.is_some();
    if !wireless {
        return None;
    }
    let low = match record.satisfaction {
        Some(s) => s < 60,
        None => false,
    };
    let dbm = match record.signal {
        Some(s) if s < 0 => Some(s),
        _ => None,
    };
    let weak = match dbm {
        Some(d) => d <= -75,
        None => false,
    } || match record.rssi {
        Some(x) => 0 <= x && x < 15,
        None => false,
    };
    if !low && !weak {
        return None;
    }
    let mut parts: Vec<Vec<char>> = Vec::new();
    if low {
        let mut p = owned("the controller scores this client's experience at ");
        push_int(&mut p, record.satisfaction.unwrap());
        push_str(&mut p, " %");
        parts.push(chars_of(p.as_str()));
    }
    if weak {
        let p = match dbm {
            Some(d) => {
                let mut p = owned("the signal is weak (");
                push_int(&mut p, d);
                push_str(&mut p, " dBm)");
                p
            },
            None => owned("the signal is weak"),
        };
        parts.push(chars_of(p.as_str()));
    }
    let sep = chars_of(", and ");
    let joined = crate::text::join_chars(&parts, &sep);
    let mut e = owned("This device works, but poorly: ");
    crate::text::push_chars(&mut e, &joined);
    push_str(
        &mut e,
        ". Usually distance to the access point or a congested channel \u{2014} moving the device or the AP, or switching bands, is the usual fix.",
    );
    proof {
        let ps = (if low_score(*record) {
            seq!["the controller scores this client's experience at "@ + int_text(record.satisfaction.unwrap()) + " %"@]
        } else {
            seq![]
        }) + (if weak_signal(*record) {
            seq![
                match dbm_of(*record) {
                    Some(d) => "the signal is weak ("@ + int_text(d) + " dBm)"@,
                    None => "the signal is weak"@,
                },
            ]
        } else {
            seq![]
        });
        assert(crate::text::views(parts@) =~= ps);
    }
    Some(
        WirelessHealthIssue {
            ip: copy_text(&device.ip),
            display_name: copy_text(&device.display_name),
            satisfaction: record.satisfaction,
            signal_dbm: dbm,
            access_point: copy_opt(&device.access_point),
            explanation: e,
        },
    )
}

/* ----------------------------------------------------- identity conflicts */

/// Some port is a remote shell (SSH, telnet, RDP).
pub open spec fn remote_shell(d: Device) -> bool {
    exists|i: int|
        0 <= i < d.ports@.len() && (#[trigger] d.ports@[i].port == 22 || d.ports@[i].port == 23 || d.ports@[i].port
            == 3389)
}

pub open spec fn mentions_any(s: Seq<char>, words: Seq<Seq<char>>) -> bool {
    exists|i: int| 0 <= i < words.len() && contains(s, #[trigger] words[i])
}

pub open spec fn appliance_words() -> Seq<Seq<char>> {
    seq!["tv"@, "printer"@, "camera"@, "speaker"@, "thermostat"@]
}

pub open spec fn mobile_words() -> Seq<Seq<char>> {
    seq!["phone"@, "tablet"@, "ios"@, "android"@]
}

/// The disagreement between what the controller says a device is and what it
/// runs: an appliance exposing a remote shell, or a mobile device (not typed
/// a computer) listening on three or more ports.
pub open spec fn conflict_spec(d: Device, fingerprint: Option<Seq<char>>) -> Option<Seq<char>> {
    match fingerprint {
        None => None,
        Some(f) => {
            let low = lower_seq(f);
            if mentions_any(low, appliance_words()) && remote_shell(d) {
                Some(
                    d.display_name@ + " ("@ + d.ip@ + ") is identified by the controller as \""@ + f
                        + "\", but exposes a remote-shell port. Worth checking it is what it claims to be."@,
                )
            } else if mentions_any(low, mobile_words()) && d.ports@.len() >= 3 && d.device_type
                != DeviceType::Computer {
                Some(
                    d.display_name@ + " ("@ + d.ip@ + ") is identified as \""@ + f + "\" but is listening on "@
                        + dec(d.ports@.len()) + " ports, which is unusual for a mobile device."@,
                )
            } else {
                None
            }
        },
    }
}

fn mentions(low: &Vec<char>, words: &[&'static str], ghost_words: Ghost<Seq<Seq<char>>>) -> (b: bool)
    requires
        words@.len() == ghost_words@.len(),
        forall|i: int| 0 <= i < words@.len() ==> #[trigger] words@[i]@ == ghost_words@[i],
    ensures
        b == mentions_any(low@, ghost_words@),
{
    let mut i: usize = 0;
    while i < words.len()
        invariant
            i <= words@.len(),
            words@.len() == ghost_words@.len(),
            forall|k: int| 0 <= k < words@.len() ==> #[trigger] words@[k]@ == ghost_words@[k],
            forall|k: int| 0 <= k < i ==> !contains(low@, #[trigger] ghost_words@[k]),
        decreases words.len() - i,
    {
        if has(low, words[i]) {
            assert(contains(low@, ghost_words@[i as int]));
            return true;
        }
        i += 1;
    }
    false
}

/// Flags a device whose controller-declared identity disagrees with the
/// services it is actually running.
pub fn detect_identity_conflict(device: &Device, fingerprint: Option<&str>) -> (r: Option<String>)
    ensures
        opt_text_view(r) == conflict_spec(
            *device,
            match fingerprint {
                Some(f) => Some(f@),
                None => None,
            },
        ),
{
    let f = match fingerprint {
        Some(f) => f,
        None => {
            return None;
        },
    };
    let fc = chars_of(f);
    let low = lowercase(&fc);
    let mut shell = false;
    let mut i: usize = 0;
    while i < device.ports.len()
        invariant
            i <= device.ports@.len(),
            shell == exists|k: int|
                0 <= k < i && (#[trigger] device.ports@[k].port == 22 || device.ports@[k].port == 23
                    || device.ports@[k].port == 3389),
        decreases device.ports.len() - i,
    {
        let p = device.ports[i].port;
        if p == 22 || p == 23 || p == 3389 {
            shell = true;
        }
        i += 1;
    }
    let appliance = ["tv", "printer", "camera", "speaker", "thermostat"];
    let mobile = ["phone", "tablet", "ios", "android"];
    let ghost aw = appliance_words();
    let ghost mw = mobile_words();
    assert(appliance@.len() == 5);
    assert(mobile@.len() == 4);
    let looks_appliance = mentions(&low, &appliance, Ghost(aw));
    if looks_appliance && shell {
        let mut m = copy_text(&device.display_name);
        push_str(&mut m, " (");
        push_str(&mut m, device.ip.as_str());
        push_str(&mut m, ") is identified by the controller as \"");
        push_str(&mut m, f);
        push_str(&mut m, "\", but exposes a remote-shell port. Worth checking it is what it claims to be.");
        return Some(m);
    }
    let looks_mobile = mentions(&low, &mobile, Ghost(mw));
    if looks_mobile && device.ports.len() >= 3 && device.device_type != DeviceType::Computer {
        let mut m = copy_text(&device.display_name);
        push_str(&mut m, " (");
        push_str(&mut m, device.ip.as_str());
        push_str(&mut m, ") is identified as \"");
        push_str(&mut m, f);
        push_str(&mut m, "\" but is listening on ");
        push_dec(&mut m, device.ports.len() as u64);
        push_str(&mut m, " ports, which is unusual for a mobile device.");
        return Some(m);
    }
    None
}

/* ---------------------------------------------------------------- summary */

/// One finding count in words, when there is any.
pub open spec fn count_part(n: nat, words: Seq<char>) -> Seq<Seq<char>> {
    if n > 0 {
        seq![dec(n) + words]
    } else {
        seq![]
    }
}

/// The one-line summary: all accounted for when there is no finding, else
/// the matched count and each kind of finding that occurs, comma-separated.
pub open spec fn summary_spec(r: Reconciliation) -> Seq<char> {
    if r.shadow@.len() == 0 && r.missed@.len() == 0 && r.hidden_segments@.len() == 0 && r.wireless_issues@.len()
        == 0 && r.degraded_links@.len() == 0 && r.unscanned_networks@.len() == 0 && r.flapping_clients@.len() == 0 {
        "All "@ + dec(r.matched as nat) + " devices are accounted for by the controller."@
    } else {
        join(
            seq![dec(r.matched as nat) + " accounted for"@] + count_part(r.shadow@.len(), " unknown to the controller"@)
                + count_part(r.missed@.len(), " the scan did not reach"@) + count_part(
                r.hidden_segments@.len(),
                " port(s) hiding other devices"@,
            ) + count_part(r.wireless_issues@.len(), " struggling on Wi-Fi"@) + count_part(
                r.degraded_links@.len(),
                " degraded link(s)"@,
            ) + count_part(r.unscanned_networks@.len(), " network(s) never scanned"@) + count_part(
                r.flapping_clients@.len(),
                " client(s) flapping"@,
            ),
            ", "@,
        )
    }
}

fn push_count(parts: &mut Vec<Vec<char>>, n: usize, words: &str)
    ensures
        crate::text::views(final(parts)@) == crate::text::views(old(parts)@) + count_part(n as nat, words@),
{
    if n > 0 {
        let mut s = String::new();
        push_dec(&mut s, n as u64);
        push_str(&mut s, words);
        let ghost before = parts@;
        let c = chars_of(s.as_str());
        parts.push(c);
        proof {
            crate::text::lemma_views_push(before, c);
        }
    } else {
        assert(crate::text::views(parts@) + count_part(n as nat, words@) =~= crate::text::views(parts@));
    }
}

impl Reconciliation {
    pub fn build_summary(&self) -> (s: String)
        ensures
            s@ == summary_spec(*self),
    {
        if self.shadow.len() == 0 && self.missed.len() == 0 && self.hidden_segments.len() == 0
            && self.wireless_issues.len() == 0 && self.degraded_links.len() == 0
            && self.unscanned_networks.len() == 0 && self.flapping_clients.len() == 0 {
            let mut s = owned("All ");
            push_dec(&mut s, self.matched as u64);
            push_str(&mut s, " devices are accounted for by the controller.");
            return s;
        }
        let mut parts: Vec<Vec<char>> = Vec::new();
        let mut first = String::new();
        push_dec(&mut first, self.matched as u64);
        push_str(&mut first, " accounted for");
        parts.push(chars_of(first.as_str()));
        assert(crate::text::views(parts@) =~= seq![dec(self.matched as nat) + " accounted for"@]);
        push_count(&mut parts, self.shadow.len(), " unknown to the controller");
        push_count(&mut parts, self.missed.len(), " the scan did not reach");
        push_count(&mut parts, self.hidden_segments.len(), " port(s) hiding other devices");
        push_count(&mut parts, self.wireless_issues.len(), " struggling on Wi-Fi");
        push_count(&mut parts, self.degraded_links.len(), " degraded link(s)");
        push_count(&mut parts, self.unscanned_networks.len(), " network(s) never scanned");
        push_count(&mut parts, self.flapping_clients.len(), " client(s) flapping");
        let sep = chars_of(", ");
        let joined = crate::text::join_chars(&parts, &sep);
        string_of(&joined)
    }
}

/* ------------------------------------------------------------- enrichment */

/// What the controller reported, as the joining reads it.
#[derive(Debug, Clone)]
pub struct ControllerData {
    /// Active clients (`stat/sta`).
    pub clients: Vec<UnifiClientRecord>,
    /// Every client ever seen (`stat/alluser`).
    pub known_clients: Vec<UnifiClientRecord>,
    /// Managed devices (`stat/device`).
    pub raw_devices: Vec<UnifiDeviceRecord>,
    /// Recent events (`stat/event`).
    pub raw_events: Vec<UnifiEventRecord>,
    /// Configured networks.
    pub networks: Vec<UnifiNetworkSummary>,
}

/// The configured name of a VLAN (the last network listing it).
pub open spec fn vlan_name(nets: Seq<UnifiNetworkSummary>, vlan: u32) -> Option<Seq<char>>
    decreases nets.len(),
{
    if nets.len() == 0 {
        None
    } else if nets.last().vlan == Some(vlan) {
        Some(nets.last().name@)
    } else {
        vlan_name(nets.drop_last(), vlan)
    }
}

/// A managed device's name for a MAC, or the MAC itself.
pub open spec fn name_or_mac(devs: Seq<UnifiDeviceRecord>, mac: Seq<char>) -> Seq<char> {
    match device_name(devs, mac) {
        Some(n) => n,
        None => mac,
    }
}

/// The controller's record for a scanned device, by its MAC.
pub open spec fn record_of(data: ControllerData, d: Device) -> Option<UnifiClientRecord> {
    match d.mac {
        Some(m) => client_record(data.clients@, data.known_clients@, m@),
        None => None,
    }
}

pub const NEW_DEVICE_NOTE: &'static str = "controller first saw this device within the last 48 hours";

pub const RANDOMIZED_NOTE: &'static str = "identified via controller despite randomized MAC";

/// The scanner's inferred name is weak: just the address, or starting with
/// the vendor.
pub open spec fn weak_name(d: Device) -> bool {
    d.display_name@ == d.ip@ || (d.vendor is Some && starts_with(d.display_name@, d.vendor.unwrap()@))
}

/// The evidence lines enrichment adds: a first sighting within 48 hours of
/// `now`, then identification despite a randomized MAC.
pub open spec fn added_evidence(old: Device, r: UnifiClientRecord, named: bool, now: i64) -> Seq<Seq<char>> {
    (if r.first_seen is Some && (now as int) - (r.first_seen.unwrap() as int) < 48 * 3600 {
        seq![NEW_DEVICE_NOTE@]
    } else {
        seq![]
    }) + (if old.mac_randomized == Some(true) && named {
        seq![RANDOMIZED_NOTE@]
    } else {
        seq![]
    })
}

/// A matched device after the controller's record is joined in. Nothing the
/// scanner observed first-hand is overwritten; an alias improves a weak name
/// (an operator-assigned alias always wins), and the controller's facts
/// (location, VLAN, signal, experience) become fields of their own.
pub open spec fn enriched_ok(
    old: Device,
    r: UnifiClientRecord,
    data: ControllerData,
    now: i64,
    new: Device,
) -> bool {
    let best = r.best_name_spec();
    let devs = data.raw_devices@;
    &&& strings_view(new.discovered_by@) == (if strings_view(old.discovered_by@).contains("unifi"@) {
        strings_view(old.discovered_by@)
    } else {
        strings_view(old.discovered_by@).push("unifi"@)
    })
    &&& opt_text_view(new.unifi_name) == (if best is Some { best } else { opt_text_view(old.unifi_name) })
    &&& new.display_name@ == (if best is Some && (weak_name(old) || r.name is Some) {
        best.unwrap()
    } else {
        old.display_name@
    })
    &&& opt_text_view(new.unifi_fingerprint) == (if fingerprint_parts(r).len() > 0 {
        Some(join(fingerprint_parts(r), " \u{b7} "@))
    } else {
        None
    })
    &&& new.vlan == r.vlan
    &&& new.is_wired == r.is_wired
    &&& new.rssi == r.rssi
    &&& opt_text_view(new.unifi_network) == (if r.network is Some {
        opt_text_view(r.network)
    } else if r.vlan is Some {
        vlan_name(data.networks@, r.vlan.unwrap())
    } else {
        None
    })
    &&& new.satisfaction == r.satisfaction
    &&& new.channel == r.channel
    &&& opt_text_view(new.wifi_generation) == (match r.radio_proto {
        Some(p) => generation_spec(p@),
        None => None,
    })
    &&& new.tx_bytes == r.tx_bytes
    &&& new.rx_bytes == r.rx_bytes
    &&& new.unifi_uptime == r.uptime
    &&& new.unifi_first_seen == r.first_seen
    &&& new.is_guest == r.is_guest
    &&& opt_text_view(new.unifi_note) == nonblank_raw(opt_text_view(r.note))
    &&& strings_view(new.type_evidence@) == strings_view(old.type_evidence@) + added_evidence(
        old,
        r,
        new.unifi_name is Some,
        now,
    )
    &&& opt_text_view(new.switch_port) == (if r.sw_mac is Some && r.sw_port is Some {
        Some(name_or_mac(devs, r.sw_mac.unwrap()@) + " port "@ + dec(r.sw_port.unwrap() as nat))
    } else {
        opt_text_view(old.switch_port)
    })
    &&& opt_text_view(new.access_point) == (if r.ap_mac is Some {
        Some(
            name_or_mac(devs, r.ap_mac.unwrap()@) + (if r.essid is Some && r.essid.unwrap()@.len() > 0 {
                " \u{b7} "@ + r.essid.unwrap()@
            } else {
                Seq::<char>::empty()
            }),
        )
    } else {
        opt_text_view(old.access_point)
    })
    &&& new == (Device {
        discovered_by: new.discovered_by,
        unifi_name: new.unifi_name,
        display_name: new.display_name,
        unifi_fingerprint: new.unifi_fingerprint,
        vlan: new.vlan,
        is_wired: new.is_wired,
        rssi: new.rssi,
        unifi_network: new.unifi_network,
        satisfaction: new.satisfaction,
        channel: new.channel,
        wifi_generation: new.wifi_generation,
        tx_bytes: new.tx_bytes,
        rx_bytes: new.rx_bytes,
        unifi_uptime: new.unifi_uptime,
        unifi_first_seen: new.unifi_first_seen,
        is_guest: new.is_guest,
        unifi_note: new.unifi_note,
        type_evidence: new.type_evidence,
        switch_port: new.switch_port,
        access_point: new.access_point,
        ..old
    })
}

fn vlan_name_of(nets: &Vec<UnifiNetworkSummary>, vlan: u32) -> (r: Option<String>)
    ensures
        opt_text_view(r) == vlan_name(nets@, vlan),
{
    let mut i = nets.len();
    assert(nets@.take(i as int) =~= nets@);
    while i > 0
        invariant
            i <= nets@.len(),
            vlan_name(nets@, vlan) == vlan_name(nets@.take(i as int), vlan),
        decreases i,
    {
        let k = i - 1;
        proof {
            assert(nets@.take(i as int).drop_last() =~= nets@.take(k as int));
            assert(nets@.take(i as int).last() == nets@[k as int]);
        }
        if nets[k].vlan == Some(vlan) {
            return Some(copy_text(&nets[k].name));
        }
        i = k;
    }
    None
}

fn name_or_mac_of(devs: &Vec<UnifiDeviceRecord>, mac: &String) -> (r: String)
    ensures
        r@ == name_or_mac(devs@, mac@),
{
    match name_of_device(devs, mac.as_str()) {
        Some(n) => n,
        None => copy_text(mac),
    }
}

fn push_text(v: &mut Vec<String>, s: &str)
    ensures
        strings_view(final(v)@) == strings_view(old(v)@).push(s@),
{
    let ghost before = v@;
    v.push(owned(s));
    assert(strings_view(v@) =~= strings_view(before).push(s@));
}

fn switch_port_of(record: &UnifiClientRecord, devs: &Vec<UnifiDeviceRecord>) -> (r: Option<String>)
    ensures
        opt_text_view(r) == (if record.sw_mac is Some && record.sw_port is Some {
            Some(name_or_mac(devs@, record.sw_mac.unwrap()@) + " port "@ + dec(record.sw_port.unwrap() as nat))
        } else {
            None
        }),
{
    match (&record.sw_mac, record.sw_port) {
        (Some(sw), Some(port)) => {
            let mut sp = name_or_mac_of(devs, sw);
            push_str(&mut sp, " port ");
            push_dec(&mut sp, port as u64);
            Some(sp)
        },
        _ => None,
    }
}

fn access_point_of(record: &UnifiClientRecord, devs: &Vec<UnifiDeviceRecord>) -> (r: Option<String>)
    ensures
        opt_text_view(r) == (if record.ap_mac is Some {
            Some(
                name_or_mac(devs@, record.ap_mac.unwrap()@) + (if record.essid is Some && record.essid.unwrap()@.len()
                    > 0 {
                    " \u{b7} "@ + record.essid.unwrap()@
                } else {
                    Seq::<char>::empty()
                }),
            )
        } else {
            None
        }),
{
    match &record.ap_mac {
        Some(ap) => {
            let mut a = name_or_mac_of(devs, ap);
            let ghost base = a@;
            match &record.essid {
                Some(ssid) => {
                    let sc = chars_of(ssid.as_str());
                    if sc.len() > 0 {
                        push_str(&mut a, " \u{b7} ");
                        push_str(&mut a, ssid.as_str());
                        assert(a@ =~= base + (" \u{b7} "@ + ssid@));
                    } else {
                        assert(a@ =~= base + Seq::<char>::empty());
                    }
                },
                None => {
                    assert(a@ =~= base + Seq::<char>::empty());
                },
            }
            Some(a)
        },
        None => None,
    }
}

fn mark_unifi(device: &mut Device)
    ensures
        strings_view(final(device).discovered_by@) == (if strings_view(old(device).discovered_by@).contains("unifi"@) {
            strings_view(old(device).discovered_by@)
        } else {
            strings_view(old(device).discovered_by@).push("unifi"@)
        }),
        *final(device) == (Device { discovered_by: final(device).discovered_by, ..*old(device) }),
{
    let ghost sv = strings_view(device.discovered_by@);
    let mut listed = false;
    let mut i: usize = 0;
    while i < device.discovered_by.len()
        invariant
            i <= device.discovered_by@.len(),
            sv == strings_view(device.discovered_by@),
            listed == exists|k: int| 0 <= k < i && sv[k] == "unifi"@,
        decreases device.discovered_by.len() - i,
    {
        let c = chars_of(device.discovered_by[i].as_str());
        let hit = is_text(&c, "unifi");
        assert(sv[i as int] == device.discovered_by@[i as int]@);
        if hit {
            listed = true;
        }
        i += 1;
    }
    proof {
        if sv.contains("unifi"@) {
            let w = choose|w: int| 0 <= w < sv.len() && sv[w] == "unifi"@;
            assert(listed);
        }
    }
    if !listed {
        push_text(&mut device.discovered_by, "unifi");
    }
}

fn adopt_name(device: &mut Device, record: &UnifiClientRecord)
    ensures
        opt_text_view(final(device).unifi_name) == (if record.best_name_spec() is Some {
            record.best_name_spec()
        } else {
            opt_text_view(old(device).unifi_name)
        }),
        final(device).display_name@ == (if record.best_name_spec() is Some && (weak_name(*old(device))
            || record.name is Some) {
            record.best_name_spec().unwrap()
        } else {
            old(device).display_name@
        }),
        *final(device) == (Device {
            unifi_name: final(device).unifi_name,
            display_name: final(device).display_name,
            ..*old(device)
        }),
{
    match record.best_name() {
        Some(name) => {
            let same = str_eq(device.display_name.as_str(), device.ip.as_str());
            let by_vendor = match &device.vendor {
                Some(v) => {
                    let dn = chars_of(device.display_name.as_str());
                    crate::text::begins(&dn, v.as_str())
                },
                None => false,
            };
            device.unifi_name = Some(copy_text(&name));
            if same || by_vendor || record.name.is_some() {
                device.display_name = name;
            }
        },
        None => {},
    }
}

fn copy_facts(device: &mut Device, record: &UnifiClientRecord, data: &ControllerData)
    ensures
        opt_text_view(final(device).unifi_fingerprint) == (if fingerprint_parts(*record).len() > 0 {
            Some(join(fingerprint_parts(*record), " \u{b7} "@))
        } else {
            None
        }),
        final(device).vlan == record.vlan,
        final(device).is_wired == record.is_wired,
        final(device).rssi == record.rssi,
        opt_text_view(final(device).unifi_network) == (if record.network is Some {
            opt_text_view(record.network)
        } else if record.vlan is Some {
            vlan_name(data.networks@, record.vlan.unwrap())
        } else {
            None
        }),
        final(device).satisfaction == record.satisfaction,
        final(device).channel == record.channel,
        opt_text_view(final(device).wifi_generation) == (match record.radio_proto {
            Some(p) => generation_spec(p@),
            None => None,
        }),
        final(device).tx_bytes == record.tx_bytes,
        final(device).rx_bytes == record.rx_bytes,
        final(device).unifi_uptime == record.uptime,
        final(device).unifi_first_seen == record.first_seen,
        final(device).is_guest == record.is_guest,
        opt_text_view(final(device).unifi_note) == nonblank_raw(opt_text_view(record.note)),
        *final(device) == (Device {
            unifi_fingerprint: final(device).unifi_fingerprint,
            vlan: final(device).vlan,
            is_wired: final(device).is_wired,
            rssi: final(device).rssi,
            unifi_network: final(device).unifi_network,
            satisfaction: final(device).satisfaction,
            channel: final(device).channel,
            wifi_generation: final(device).wifi_generation,
            tx_bytes: final(device).tx_bytes,
            rx_bytes: final(device).rx_bytes,
            unifi_uptime: final(device).unifi_uptime,
            unifi_first_seen: final(device).unifi_first_seen,
            is_guest: final(device).is_guest,
            unifi_note: final(device).unifi_note,
            ..*old(device)
        }),
{
    device.unifi_fingerprint = record.fingerprint();
    device.vlan = record.vlan;
    device.is_wired = record.is_wired;
    device.rssi = record.rssi;
    device.unifi_network = match &record.network {
        Some(n) => Some(copy_text(n)),
        None => match record.vlan {
            Some(v) => vlan_name_of(&data.networks, v),
            None => None,
        },
    };
    device.satisfaction = record.satisfaction;
    device.channel = record.channel;
    device.wifi_generation = record.wifi_generation();
    device.tx_bytes = record.tx_bytes;
    device.rx_bytes = record.rx_bytes;
    device.unifi_uptime = record.uptime;
    device.unifi_first_seen = record.first_seen;
    device.is_guest = record.is_guest;
    device.unifi_note = match &record.note {
        Some(n) => {
            let c = chars_of(n.as_str());
            let t = trimmed(&c);
            if t.len() > 0 {
                Some(copy_text(n))
            } else {
                None
            }
        },
        None => None,
    };
}

fn locate(device: &mut Device, record: &UnifiClientRecord, data: &ControllerData, now: i64, randomized: bool)
    ensures
        strings_view(final(device).type_evidence@) == strings_view(old(device).type_evidence@) + (if record.first_seen
            is Some && (now as int) - (record.first_seen.unwrap() as int) < 48 * 3600 {
            seq![NEW_DEVICE_NOTE@]
        } else {
            seq![]
        }) + (if randomized && old(device).unifi_name is Some {
            seq![RANDOMIZED_NOTE@]
        } else {
            seq![]
        }),
        opt_text_view(final(device).switch_port) == (if record.sw_mac is Some && record.sw_port is Some {
            Some(name_or_mac(data.raw_devices@, record.sw_mac.unwrap()@) + " port "@ + dec(record.sw_port.unwrap() as nat))
        } else {
            opt_text_view(old(device).switch_port)
        }),
        opt_text_view(final(device).access_point) == (if record.ap_mac is Some {
            Some(
                name_or_mac(data.raw_devices@, record.ap_mac.unwrap()@) + (if record.essid is Some
                    && record.essid.unwrap()@.len() > 0 {
                    " \u{b7} "@ + record.essid.unwrap()@
                } else {
                    Seq::<char>::empty()
                }),
            )
        } else {
            opt_text_view(old(device).access_point)
        }),
        *final(device) == (Device {
            type_evidence: final(device).type_evidence,
            switch_port: final(device).switch_port,
            access_point: final(device).access_point,
            ..*old(device)
        }),
{
    let ghost ev0 = strings_view(device.type_evidence@);
    match record.first_seen {
        Some(seen) => {
            let age: i128 = (now as i128) - (seen as i128);
            if age < 48 * 3600 {
                push_text(&mut device.type_evidence, NEW_DEVICE_NOTE);
            }
        },
        None => {},
    }
    let ghost ev1 = strings_view(device.type_evidence@);
    match switch_port_of(record, &data.raw_devices) {
        Some(sp) => {
            device.switch_port = Some(sp);
        },
        None => {},
    }
    match access_point_of(record, &data.raw_devices) {
        Some(a) => {
            device.access_point = Some(a);
        },
        None => {},
    }
    if randomized && device.unifi_name.is_some() {
        push_text(&mut device.type_evidence, RANDOMIZED_NOTE);
    }
    proof {
        assert(strings_view(device.type_evidence@) =~= ev0 + (if record.first_seen is Some && (now as int) - (
        record.first_seen.unwrap() as int) < 48 * 3600 {
            seq![NEW_DEVICE_NOTE@]
        } else {
            seq![]
        }) + (if randomized && device.unifi_name is Some {
            seq![RANDOMIZED_NOTE@]
        } else {
            seq![]
        }));
    }
}

/// Joins one controller record into a scanned device.
pub fn enrich(device: &mut Device, record: &UnifiClientRecord, data: &ControllerData, now: i64)
    ensures
        enriched_ok(*old(device), *record, *data, now, *final(device)),
{
    let randomized = device.mac_randomized == Some(true);
    let ghost d0 = *device;
    mark_unifi(device);
    let ghost d1 = *device;
    assert(d1.type_evidence == d0.type_evidence);
    adopt_name(device, record);
    let ghost d2 = *device;
    assert(d2.type_evidence == d0.type_evidence);
    copy_facts(device, record, data);
    let ghost d3 = *device;
    assert(d3.type_evidence == d0.type_evidence);
    assert(d3.unifi_name == d2.unifi_name);
    locate(device, record, data, now, randomized);
    assert(device.unifi_name == d3.unifi_name);
    assert(strings_view(device.type_evidence@) == strings_view(d0.type_evidence@) + added_evidence(
        d0,
        *record,
        device.unifi_name is Some,
        now,
    ));
}

/* --------------------------------------------------------- disconnections */

/// The client an event concerns: the user, else the guest.
pub open spec fn event_mac(e: UnifiEventRecord) -> Option<Seq<char>> {
    if e.user is Some {
        Some(e.user.unwrap()@)
    } else if e.guest is Some {
        Some(e.guest.unwrap()@)
    } else {
        None
    }
}

/// A disconnect event with a client and a time.
pub open spec fn is_drop(e: UnifiEventRecord) -> bool {
    e.key is Some && contains(e.key.unwrap()@, "Disconnected"@) && event_mac(e) is Some && e.time is Some
}

/// The times (epoch seconds) a client was logged disconnecting, in log order.
pub open spec fn drops(evs: Seq<UnifiEventRecord>, mac: Seq<char>) -> Seq<i64>
    decreases evs.len(),
{
    if evs.len() == 0 {
        seq![]
    } else {
        let prev = drops(evs.drop_last(), mac);
        let e = evs.last();
        if is_drop(e) && event_mac(e) == Some(mac) {
            prev.push(seconds_spec(e.time.unwrap()))
        } else {
            prev
        }
    }
}

/// The latest of some times.
pub open spec fn newest(ts: Seq<i64>) -> i64
    decreases ts.len(),
{
    if ts.len() == 0 {
        i64::MIN
    } else if ts.len() == 1 {
        ts[0]
    } else {
        let p = newest(ts.drop_last());
        if ts.last() > p {
            ts.last()
        } else {
            p
        }
    }
}

fn event_client(e: &UnifiEventRecord) -> (r: Option<&String>)
    ensures
        match r {
            Some(m) => event_mac(*e) == Some(m@),
            None => event_mac(*e) is None,
        },
{
    match &e.user {
        Some(u) => Some(u),
        None => match &e.guest {
            Some(g) => Some(g),
            None => None,
        },
    }
}

/// How often a client was logged disconnecting, and when last.
fn drop_stats(evs: &Vec<UnifiEventRecord>, mac: &str) -> (r: (usize, i64))
    ensures
        r.0 == drops(evs@, mac@).len(),
        r.0 > 0 ==> r.1 == newest(drops(evs@, mac@)),
{
    let mut count: usize = 0;
    let mut last: i64 = i64::MIN;
    let mut i: usize = 0;
    while i < evs.len()
        invariant
            i <= evs@.len(),
            count == drops(evs@.take(i as int), mac@).len(),
            count <= i,
            count > 0 ==> last == newest(drops(evs@.take(i as int), mac@)),
        decreases evs.len() - i,
    {
        proof {
            assert(evs@.take(i + 1).drop_last() =~= evs@.take(i as int));
            assert(evs@.take(i + 1).last() == evs@[i as int]);
        }
        let e = &evs[i];
        if e.is_disconnect() && e.time.is_some() {
            match event_client(e) {
                Some(m) => if str_eq(m.as_str(), mac) {
                    let t = to_seconds(e.time.unwrap());
                    proof {
                        let ds = drops(evs@.take(i + 1), mac@);
                        assert(ds.drop_last() == drops(evs@.take(i as int), mac@));
                    }
                    if count == 0 || t > last {
                        last = t;
                    }
                    count += 1;
                },
                None => {},
            }
        }
        i += 1;
    }
    assert(evs@.take(evs@.len() as int) =~= evs@);
    (count, last)
}

/* ----------------------------------------------------------------- missed */

/// The network a missed client sits on, among the blind spots: named by the
/// record, or containing its address.
pub open spec fn on_blind_spot(r: UnifiClientRecord, net: UnscannedNetwork) -> bool {
    ||| (r.network is Some && r.network.unwrap()@ == net.name@)
    ||| (r.effective_ip_spec() is Some && parse_ipv4(r.effective_ip_spec().unwrap()) is Some
        && parse_cidr_any_spec(net.subnet@) is Ok && ({
        let ip = parse_ipv4(r.effective_ip_spec().unwrap()).unwrap();
        let c = parse_cidr_any_spec(net.subnet@)->Ok_0;
        c.first <= ip <= c.last
    }))
}

/// The first blind spot from `i` on that the client sits on.
pub open spec fn first_blind(r: UnifiClientRecord, nets: Seq<UnscannedNetwork>, i: int) -> Option<UnscannedNetwork>
    decreases nets.len() - i,
{
    if i < 0 || i >= nets.len() {
        None
    } else if on_blind_spot(r, nets[i]) {
        Some(nets[i])
    } else {
        first_blind(r, nets, i + 1)
    }
}

pub const MISSED_DEFAULT: &'static str = "The controller shows this connected, but the scan did not reach it. Usually a sleeping device, one that ignores probes, or one on a network this machine cannot route to.";

/// `a - b`, saturating at the bounds of `i64`.
pub open spec fn sat_sub(a: i64, b: i64) -> i64 {
    let d = (a as int) - (b as int);
    if d > i64::MAX {
        i64::MAX
    } else if d < i64::MIN {
        i64::MIN
    } else {
        d as i64
    }
}

fn saturating_sub(a: i64, b: i64) -> (r: i64)
    ensures
        r == sat_sub(a, b),
{
    let d: i128 = a as i128 - b as i128;
    if d > i64::MAX as i128 {
        i64::MAX
    } else if d < i64::MIN as i128 {
        i64::MIN
    } else {
        d as i64
    }
}

/// Why a known client was not reached: a blind spot it sits on, else a
/// disconnect the log shows, else the usual reasons.
pub open spec fn missed_text(r: UnifiClientRecord, mac: Seq<char>, data: ControllerData, blind: Seq<UnscannedNetwork>, now: i64) -> Seq<char> {
    match first_blind(r, blind, 0) {
        Some(net) => "The controller shows this connected on \""@ + net.name@ + "\" ("@ + net.subnet@
            + "), a network this scan did not cover \u{2014} so not reaching it is expected, not a fault."@,
        None => if drops(data.raw_events@, mac).len() > 0 {
            "The controller lists it as a client, but also logged it disconnecting "@ + ago_spec(
                sat_sub(now, newest(drops(data.raw_events@, mac))),
            ) + " ago \u{2014} it was likely offline when the scan probed it."@
        } else {
            MISSED_DEFAULT@
        },
    }
}

pub open spec fn missed_ok(r: UnifiClientRecord, data: ControllerData, blind: Seq<UnscannedNetwork>, now: i64, m: MissedDevice) -> bool {
    let mac = r.mac.unwrap()@;
    &&& m.mac@ == mac
    &&& m.name@ == (match r.best_name_spec() {
        Some(n) => n,
        None => mac,
    })
    &&& opt_text_view(m.ip) == r.effective_ip_spec()
    &&& opt_text_view(m.location) == (if r.ap_mac is Some {
        Some(name_or_mac(data.raw_devices@, r.ap_mac.unwrap()@))
    } else if r.sw_mac is Some {
        Some(name_or_mac(data.raw_devices@, r.sw_mac.unwrap()@))
    } else {
        None
    })
    &&& m.explanation@ == missed_text(r, mac, data, blind, now)
}

/// An active client is missed when the scan matched no device to its MAC and
/// it was seen within the last day.
pub open spec fn is_missed(r: UnifiClientRecord, seen: Seq<Seq<char>>, now: i64) -> bool {
    r.mac is Some && !seen.contains(r.mac.unwrap()@) && !(r.last_seen is Some && (r.last_seen.unwrap() as int)
        < (now as int) - 86400)
}

pub open spec fn missed_rows(rs: Seq<UnifiClientRecord>, seen: Seq<Seq<char>>, now: i64) -> Seq<UnifiClientRecord>
    decreases rs.len(),
{
    if rs.len() == 0 {
        seq![]
    } else if is_missed(rs.last(), seen, now) {
        missed_rows(rs.drop_last(), seen, now).push(rs.last())
    } else {
        missed_rows(rs.drop_last(), seen, now)
    }
}

fn find_blind<'a>(r: &UnifiClientRecord, ip: &Option<String>, nets: &'a Vec<UnscannedNetwork>) -> (out: Option<&'a UnscannedNetwork>)
    requires
        opt_text_view(*ip) == r.effective_ip_spec(),
    ensures
        match out {
            Some(n) => first_blind(*r, nets@, 0) == Some(*n),
            None => first_blind(*r, nets@, 0) is None,
        },
{
    let addr = match ip {
        Some(a) => parse_ipv4_str(a.as_str()),
        None => None,
    };
    let mut i: usize = 0;
    while i < nets.len()
        invariant
            i <= nets@.len(),
            first_blind(*r, nets@, 0) == first_blind(*r, nets@, i as int),
            addr == (if r.effective_ip_spec() is Some { parse_ipv4(r.effective_ip_spec().unwrap()) } else { None }),
        decreases nets.len() - i,
    {
        let net = &nets[i];
        let by_name = match &r.network {
            Some(n) => str_eq(n.as_str(), net.name.as_str()),
            None => false,
        };
        let by_range = match addr {
            Some(a) => match parse_cidr_any(net.subnet.as_str()) {
                Ok(c) => c.first <= a && a <= c.last,
                Err(_) => false,
            },
            None => false,
        };
        if by_name || by_range {
            return Some(net);
        }
        i += 1;
    }
    None
}

fn missed_entry(r: &UnifiClientRecord, data: &ControllerData, blind: &Vec<UnscannedNetwork>, now: i64) -> (m: MissedDevice)
    requires
        r.mac is Some,
    ensures
        missed_ok(*r, *data, blind@, now, m),
{
    let mac = r.mac.as_ref().unwrap();
    let location = match &r.ap_mac {
        Some(a) => Some(name_or_mac_of(&data.raw_devices, a)),
        None => match &r.sw_mac {
            Some(s) => Some(name_or_mac_of(&data.raw_devices, s)),
            None => None,
        },
    };
    let ip = r.effective_ip();
    let explanation = match find_blind(r, &ip, blind) {
        Some(net) => {
            let mut e = owned("The controller shows this connected on \"");
            push_str(&mut e, net.name.as_str());
            push_str(&mut e, "\" (");
            push_str(&mut e, net.subnet.as_str());
            push_str(&mut e, "), a network this scan did not cover \u{2014} so not reaching it is expected, not a fault.");
            proof {
                assert(e@ =~= missed_text(*r, mac@, *data, blind@, now));
            }
            e
        },
        None => {
            let (count, last) = drop_stats(&data.raw_events, mac.as_str());
            if count > 0 {
                let mut e = owned("The controller lists it as a client, but also logged it disconnecting ");
                let ago = human_ago(saturating_sub(now, last));
                push_str(&mut e, ago.as_str());
                push_str(&mut e, " ago \u{2014} it was likely offline when the scan probed it.");
                proof {
                    assert(e@ =~= missed_text(*r, mac@, *data, blind@, now));
                }
                e
            } else {
                let e = owned(MISSED_DEFAULT);
                assert(e@ == missed_text(*r, mac@, *data, blind@, now));
                e
            }
        },
    };
    let name = match r.best_name() {
        Some(n) => n,
        None => copy_text(mac),
    };
    MissedDevice { mac: copy_text(mac), name, ip, location, explanation }
}

/* --------------------------------------------------------------- flapping */

/// The clients the log shows disconnecting, each once, in order of first
/// disconnect.
pub open spec fn drop_macs(evs: Seq<UnifiEventRecord>) -> Seq<Seq<char>>
    decreases evs.len(),
{
    if evs.len() == 0 {
        seq![]
    } else {
        let prev = drop_macs(evs.drop_last());
        let e = evs.last();
        if is_drop(e) && !prev.contains(event_mac(e).unwrap()) {
            prev.push(event_mac(e).unwrap())
        } else {
            prev
        }
    }
}

pub open spec fn flap_text(n: nat) -> Seq<char> {
    "The controller logged "@ + dec(n)
        + " disconnects for this client in the last 24 hours. A connection dropping this often usually means weak signal, interference, or flaky power on the device itself."@
}

/// A client flapping: three or more disconnects in the log.
pub open spec fn flap_ok(data: ControllerData, f: FlappingClient) -> bool {
    let mac = f.mac@;
    let rec = client_record(data.clients@, data.known_clients@, mac);
    &&& f.disconnects == drops(data.raw_events@, mac).len()
    &&& f.disconnects >= 3
    &&& f.name@ == (match rec {
        Some(r) => match r.best_name_spec() {
            Some(n) => n,
            None => mac,
        },
        None => mac,
    })
    &&& opt_text_view(f.access_point) == (match rec {
        Some(r) => if r.ap_mac is Some {
            Some(name_or_mac(data.raw_devices@, r.ap_mac.unwrap()@))
        } else {
            None
        },
        None => None,
    })
    &&& f.explanation@ == flap_text(f.disconnects as nat)
}

proof fn lemma_drops_mac(evs: Seq<UnifiEventRecord>, mac: Seq<char>)
    ensures
        drops(evs, mac).len() > 0 ==> drop_macs(evs).contains(mac),
    decreases evs.len(),
{
    if evs.len() > 0 {
        lemma_drops_mac(evs.drop_last(), mac);
        let prev = drop_macs(evs.drop_last());
        let e = evs.last();
        if drops(evs, mac).len() > 0 {
            if drops(evs.drop_last(), mac).len() > 0 {
                let w = choose|w: int| 0 <= w < prev.len() && prev[w] == mac;
                assert(drop_macs(evs)[w] == mac);
            } else {
                assert(is_drop(e) && event_mac(e) == Some(mac));
                if prev.contains(mac) {
                    let w = choose|w: int| 0 <= w < prev.len() && prev[w] == mac;
                    assert(drop_macs(evs)[w] == mac);
                } else {
                    assert(drop_macs(evs)[prev.len() as int] == mac);
                }
            }
        }
    }
}

proof fn lemma_drop_macs_distinct(evs: Seq<UnifiEventRecord>)
    ensures
        forall|i: int, j: int| 0 <= i < j < drop_macs(evs).len() ==> drop_macs(evs)[i] != drop_macs(evs)[j],
    decreases evs.len(),
{
    if evs.len() > 0 {
        lemma_drop_macs_distinct(evs.drop_last());
        let prev = drop_macs(evs.drop_last());
        let e = evs.last();
        if is_drop(e) && !prev.contains(event_mac(e).unwrap()) {
            assert forall|i: int, j: int| 0 <= i < j < drop_macs(evs).len() implies drop_macs(evs)[i]
                != drop_macs(evs)[j] by {
                if j == prev.len() {
                    if prev[i] == event_mac(e).unwrap() {
                        assert(prev.contains(event_mac(e).unwrap()));
                    }
                }
            }
        }
    }
}

fn contains_text(v: &Vec<String>, x: &String) -> (b: bool)
    ensures
        b == strings_view(v@).contains(x@),
{
    let mut i: usize = 0;
    while i < v.len()
        invariant
            i <= v@.len(),
            forall|k: int| 0 <= k < i ==> strings_view(v@)[k] != x@,
        decreases v.len() - i,
    {
        if str_eq(v[i].as_str(), x.as_str()) {
            assert(strings_view(v@)[i as int] == x@);
            return true;
        }
        i += 1;
    }
    false
}

fn flap_macs(evs: &Vec<UnifiEventRecord>) -> (out: Vec<String>)
    ensures
        strings_view(out@) == drop_macs(evs@),
{
    let mut out: Vec<String> = Vec::new();
    let mut i: usize = 0;
    while i < evs.len()
        invariant
            i <= evs@.len(),
            strings_view(out@) == drop_macs(evs@.take(i as int)),
        decreases evs.len() - i,
    {
        proof {
            assert(evs@.take(i + 1).drop_last() =~= evs@.take(i as int));
            assert(evs@.take(i + 1).last() == evs@[i as int]);
        }
        let e = &evs[i];
        if e.is_disconnect() && e.time.is_some() {
            match event_client(e) {
                Some(m) => {
                    if !contains_text(&out, m) {
                        let ghost before = out@;
                        out.push(copy_text(m));
                        assert(strings_view(out@) =~= strings_view(before).push(m@));
                    }
                },
                None => {},
            }
        }
        i += 1;
    }
    assert(evs@.take(evs@.len() as int) =~= evs@);
    out
}

spec fn flaps_valid(data: ControllerData, out: Seq<FlappingClient>) -> bool {
    forall|k: int| 0 <= k < out.len() ==> flap_ok(data, #[trigger] out[k])
}

spec fn flaps_sorted(out: Seq<FlappingClient>) -> bool {
    forall|a: int, b: int| 0 <= a < b < out.len() ==> out[a].disconnects >= out[b].disconnects
}

spec fn flaps_from(out: Seq<FlappingClient>, mv: Seq<Seq<char>>, i: int) -> bool {
    forall|k: int| 0 <= k < out.len() ==> exists|j: int| 0 <= j < i && #[trigger] out[k].mac@ == mv[j]
}

spec fn flaps_distinct(out: Seq<FlappingClient>) -> bool {
    forall|a: int, b: int| 0 <= a < b < out.len() ==> out[a].mac@ != out[b].mac@
}

spec fn flaps_cover(data: ControllerData, out: Seq<FlappingClient>, mv: Seq<Seq<char>>, i: int) -> bool {
    forall|j: int|
        0 <= j < i && drops(data.raw_events@, #[trigger] mv[j]).len() >= 3 ==> exists|k: int|
            0 <= k < out.len() && out[k].mac@ == mv[j]
}

/// The invariant of `flapping_clients` after the first `i` candidates.
spec fn flaps_so_far(data: ControllerData, out: Seq<FlappingClient>, mv: Seq<Seq<char>>, i: int) -> bool {
    &&& flaps_valid(data, out)
    &&& flaps_sorted(out)
    &&& flaps_from(out, mv, i)
    &&& flaps_distinct(out)
    &&& flaps_cover(data, out, mv, i)
}

proof fn lemma_flap_skip(data: ControllerData, out: Seq<FlappingClient>, mv: Seq<Seq<char>>, i: int)
    requires
        0 <= i < mv.len(),
        flaps_so_far(data, out, mv, i),
        drops(data.raw_events@, mv[i]).len() < 3,
    ensures
        flaps_so_far(data, out, mv, i + 1),
{
    assert forall|k: int| 0 <= k < out.len() implies exists|w: int| 0 <= w < i + 1 && #[trigger] out[k].mac@ == mv[w] by {
        let w = choose|w: int| 0 <= w < i && out[k].mac@ == mv[w];
    }
}

proof fn lemma_flap_insert_valid(data: ControllerData, before: Seq<FlappingClient>, j: int, f: FlappingClient)
    requires
        flaps_valid(data, before),
        flap_ok(data, f),
        0 <= j <= before.len(),
    ensures
        flaps_valid(data, before.insert(j, f)),
{
    let out = before.insert(j, f);
    assert forall|k: int| 0 <= k < out.len() implies flap_ok(data, #[trigger] out[k]) by {
        if k < j {
            assert(out[k] == before[k]);
        } else if k > j {
            assert(out[k] == before[k - 1]);
        }
    }
}

proof fn lemma_flap_insert_sorted(before: Seq<FlappingClient>, j: int, f: FlappingClient)
    requires
        flaps_sorted(before),
        0 <= j <= before.len(),
        forall|k: int| 0 <= k < j ==> before[k].disconnects >= f.disconnects,
        j < before.len() ==> before[j].disconnects < f.disconnects,
    ensures
        flaps_sorted(before.insert(j, f)),
{
    let out = before.insert(j, f);
    assert forall|a: int, b: int| 0 <= a < b < out.len() implies out[a].disconnects >= out[b].disconnects by {
        if b == j {
            assert(out[a] == before[a]);
        } else if a == j {
            assert(out[b] == before[b - 1]);
            if b - 1 > j {
                assert(before[j].disconnects >= before[b - 1].disconnects);
            }
        } else if a < j && b > j {
            assert(out[a] == before[a] && out[b] == before[b - 1]);
        } else if b < j {
            assert(out[a] == before[a] && out[b] == before[b]);
        } else {
            assert(out[a] == before[a - 1] && out[b] == before[b - 1]);
        }
    }
}

proof fn lemma_flap_insert_from(before: Seq<FlappingClient>, mv: Seq<Seq<char>>, i: int, j: int, f: FlappingClient)
    requires
        0 <= i < mv.len(),
        flaps_from(before, mv, i),
        f.mac@ == mv[i],
        0 <= j <= before.len(),
    ensures
        flaps_from(before.insert(j, f), mv, i + 1),
{
    let out = before.insert(j, f);
    assert forall|k: int| 0 <= k < out.len() implies exists|w: int| 0 <= w < i + 1 && #[trigger] out[k].mac@ == mv[w] by {
        if k < j {
            assert(out[k] == before[k]);
            let w = choose|w: int| 0 <= w < i && before[k].mac@ == mv[w];
            assert(out[k].mac@ == mv[w]);
        } else if k > j {
            assert(out[k] == before[k - 1]);
            let w = choose|w: int| 0 <= w < i && before[k - 1].mac@ == mv[w];
            assert(out[k].mac@ == mv[w]);
        } else {
            assert(out[k].mac@ == mv[i]);
        }
    }
}

proof fn lemma_flap_insert_distinct(before: Seq<FlappingClient>, mv: Seq<Seq<char>>, i: int, j: int, f: FlappingClient)
    requires
        0 <= i < mv.len(),
        forall|a: int, b: int| 0 <= a < b < mv.len() ==> mv[a] != mv[b],
        flaps_from(before, mv, i),
        flaps_distinct(before),
        f.mac@ == mv[i],
        0 <= j <= before.len(),
    ensures
        flaps_distinct(before.insert(j, f)),
{
    let out = before.insert(j, f);
    assert forall|k: int| 0 <= k < before.len() implies before[k].mac@ != f.mac@ by {
        let w = choose|w: int| 0 <= w < i && before[k].mac@ == mv[w];
    }
    assert forall|a: int, b: int| 0 <= a < b < out.len() implies out[a].mac@ != out[b].mac@ by {
        if a == j {
            assert(out[b] == before[b - 1]);
        } else if b == j {
            assert(out[a] == before[a]);
        } else {
            let pa = if a < j { a } else { a - 1 };
            let pb = if b < j { b } else { b - 1 };
            assert(out[a] == before[pa] && out[b] == before[pb]);
        }
    }
}

proof fn lemma_flap_insert_cover(
    data: ControllerData,
    before: Seq<FlappingClient>,
    mv: Seq<Seq<char>>,
    i: int,
    j: int,
    f: FlappingClient,
)
    requires
        0 <= i < mv.len(),
        flaps_cover(data, before, mv, i),
        f.mac@ == mv[i],
        0 <= j <= before.len(),
    ensures
        flaps_cover(data, before.insert(j, f), mv, i + 1),
{
    let out = before.insert(j, f);
    assert forall|w: int| 0 <= w < i + 1 && drops(data.raw_events@, #[trigger] mv[w]).len() >= 3 implies exists|k: int|
        0 <= k < out.len() && out[k].mac@ == mv[w] by {
        if w == i {
            assert(out[j].mac@ == mv[w]);
        } else {
            let k = choose|k: int| 0 <= k < before.len() && before[k].mac@ == mv[w];
            if k < j {
                assert(out[k] == before[k]);
            } else {
                assert(out[k + 1] == before[k]);
            }
        }
    }
}

proof fn lemma_flap_insert(
    data: ControllerData,
    before: Seq<FlappingClient>,
    mv: Seq<Seq<char>>,
    i: int,
    j: int,
    f: FlappingClient,
)
    requires
        0 <= i < mv.len(),
        forall|a: int, b: int| 0 <= a < b < mv.len() ==> mv[a] != mv[b],
        flaps_so_far(data, before, mv, i),
        f.mac@ == mv[i],
        flap_ok(data, f),
        0 <= j <= before.len(),
        forall|k: int| 0 <= k < j ==> before[k].disconnects >= f.disconnects,
        j < before.len() ==> before[j].disconnects < f.disconnects,
    ensures
        flaps_so_far(data, before.insert(j, f), mv, i + 1),
{
    lemma_flap_insert_valid(data, before, j, f);
    lemma_flap_insert_sorted(before, j, f);
    lemma_flap_insert_from(before, mv, i, j, f);
    lemma_flap_insert_distinct(before, mv, i, j, f);
    lemma_flap_insert_cover(data, before, mv, i, j, f);
}

fn flapping_clients(data: &ControllerData) -> (out: Vec<FlappingClient>)
    ensures
        forall|k: int| 0 <= k < out@.len() ==> flap_ok(*data, #[trigger] out@[k]),
        forall|i: int, j: int| 0 <= i < j < out@.len() ==> out@[i].disconnects >= out@[j].disconnects,
        forall|i: int, j: int| 0 <= i < j < out@.len() ==> out@[i].mac@ != out@[j].mac@,
        forall|m: Seq<char>|
            drops(data.raw_events@, m).len() >= 3 ==> exists|k: int| 0 <= k < out@.len() && #[trigger] out@[k].mac@ == m,
{
    let macs = flap_macs(&data.raw_events);
    proof {
        lemma_drop_macs_distinct(data.raw_events@);
    }
    let ghost mv = strings_view(macs@);
    let mut out: Vec<FlappingClient> = Vec::new();
    let mut i: usize = 0;
    while i < macs.len()
        invariant
            i <= macs@.len(),
            mv == strings_view(macs@),
            mv == drop_macs(data.raw_events@),
            forall|a: int, b: int| 0 <= a < b < mv.len() ==> mv[a] != mv[b],
            flaps_so_far(*data, out@, mv, i as int),
        decreases macs.len() - i,
    {
        let mac = &macs[i];
        assert(mv[i as int] == mac@);
        let (count, _) = drop_stats(&data.raw_events, mac.as_str());
        if count >= 3 {
            let rec = lookup_client(&data.clients, &data.known_clients, mac.as_str());
            let name = match rec {
                Some(r) => match r.best_name() {
                    Some(n) => n,
                    None => copy_text(mac),
                },
                None => copy_text(mac),
            };
            let access_point = match rec {
                Some(r) => match &r.ap_mac {
                    Some(ap) => Some(name_or_mac_of(&data.raw_devices, ap)),
                    None => None,
                },
                None => None,
            };
            let mut e = owned("The controller logged ");
            push_dec(&mut e, count as u64);
            push_str(
                &mut e,
                " disconnects for this client in the last 24 hours. A connection dropping this often usually means weak signal, interference, or flaky power on the device itself.",
            );
            let f = FlappingClient { mac: copy_text(mac), name, disconnects: count, access_point, explanation: e };
            assert(flap_ok(*data, f));
            let mut j: usize = 0;
            while j < out.len() && out[j].disconnects >= count
                invariant
                    j <= out@.len(),
                    forall|k: int| 0 <= k < j ==> out@[k].disconnects >= count,
                decreases out.len() - j,
            {
                j += 1;
            }
            proof {
                lemma_flap_insert(*data, out@, mv, i as int, j as int, f);
            }
            out.insert(j, f);
        } else {
            proof {
                lemma_flap_skip(*data, out@, mv, i as int);
            }
        }
        i += 1;
    }
    proof {
        assert forall|m: Seq<char>| drops(data.raw_events@, m).len() >= 3 implies exists|k: int|
            0 <= k < out@.len() && #[trigger] out@[k].mac@ == m by {
            lemma_drops_mac(data.raw_events@, m);
            let w = choose|w: int| 0 <= w < mv.len() && mv[w] == m;
            assert(drops(data.raw_events@, mv[w]).len() >= 3);
        }
    }
    out
}

/* -------------------------------------------------------- switch findings */

/// A signed integer as `Display` writes it.
pub open spec fn long_text(v: i64) -> Seq<char> {
    if v < 0 {
        "-"@ + dec((-(v as int)) as nat)
    } else {
        dec(v as nat)
    }
}

fn push_long(s: &mut String, v: i64)
    ensures
        final(s)@ == old(s)@ + long_text(v),
{
    if v < 0 {
        push_str(s, "-");
        let m: i128 = 0i128 - (v as i128);
        push_dec(s, m as u64);
    } else {
        push_dec(s, v as u64);
    }
}

pub open spec fn hidden_text(n: nat) -> Seq<char> {
    dec(n)
        + " hardware addresses are behind this single port, so an unmanaged switch, a virtual-machine host or a bridge sits there. The controller cannot see individual devices past it."@
}

/// A hidden segment reported for a crowded port.
pub open spec fn hidden_ok(c: (Seq<char>, u32, Option<Seq<char>>, Seq<Seq<char>>), h: HiddenSegment) -> bool {
    &&& h.switch_name@ == c.0
    &&& h.port == c.1
    &&& opt_text_view(h.port_name) == c.2
    &&& h.mac_count == c.3.len()
    &&& h.explanation@ == hidden_text(c.3.len())
}

pub open spec fn degraded_text(speed: i64, switch: Seq<char>, fastest: i64) -> Seq<char> {
    "This link negotiated "@ + long_text(speed) + " Mbps while other ports on "@ + switch + " run at "@ + long_text(
        fastest,
    )
        + " Mbps or more. Either the connected device only supports this speed, or the cable is faulty \u{2014} a gigabit link with a damaged wire pair falls back to exactly 100 Mbps."@
}

/// A degraded link reported for a slow port.
pub open spec fn degraded_ok(d: (Seq<char>, u32, Option<Seq<char>>, i64, i64), l: DegradedLink) -> bool {
    &&& l.switch_name@ == d.0
    &&& l.port == d.1
    &&& opt_text_view(l.port_name) == d.2
    &&& l.speed_mbps == d.3
    &&& l.explanation@ == degraded_text(d.3, d.0, d.4)
}

fn hidden_segments(devs: &Vec<UnifiDeviceRecord>) -> (out: Vec<HiddenSegment>)
    ensures
        out@.len() == crowded_all(devs@).len(),
        forall|k: int| 0 <= k < out@.len() ==> hidden_ok(crowded_all(devs@)[k], #[trigger] out@[k]),
{
    let ports = crowded_ports(devs);
    let mut out: Vec<HiddenSegment> = Vec::new();
    let mut i: usize = 0;
    while i < ports.len()
        invariant
            i <= ports@.len(),
            ports@.len() == crowded_all(devs@).len(),
            forall|k: int| 0 <= k < ports@.len() ==> crowded_view(#[trigger] ports@[k]) == crowded_all(devs@)[k],
            out@.len() == i,
            forall|k: int| 0 <= k < i ==> hidden_ok(crowded_all(devs@)[k], #[trigger] out@[k]),
        decreases ports.len() - i,
    {
        let c = &ports[i];
        assert(crowded_view(ports@[i as int]) == crowded_all(devs@)[i as int]);
        let n = c.macs.len();
        let mut e = String::new();
        push_dec(&mut e, n as u64);
        push_str(
            &mut e,
            " hardware addresses are behind this single port, so an unmanaged switch, a virtual-machine host or a bridge sits there. The controller cannot see individual devices past it.",
        );
        out.push(
            HiddenSegment {
                switch_name: copy_text(&c.switch_name),
                port: c.port,
                port_name: copy_opt(&c.port_name),
                mac_count: n,
                explanation: e,
            },
        );
        i += 1;
    }
    out
}

fn degraded_links(devs: &Vec<UnifiDeviceRecord>) -> (out: Vec<DegradedLink>)
    ensures
        out@.len() == degraded_all(devs@).len(),
        forall|k: int| 0 <= k < out@.len() ==> degraded_ok(degraded_all(devs@)[k], #[trigger] out@[k]),
{
    let ports = degraded_link_ports(devs);
    let mut out: Vec<DegradedLink> = Vec::new();
    let mut i: usize = 0;
    while i < ports.len()
        invariant
            i <= ports@.len(),
            ports@.len() == degraded_all(devs@).len(),
            forall|k: int| 0 <= k < ports@.len() ==> degraded_view(#[trigger] ports@[k]) == degraded_all(devs@)[k],
            out@.len() == i,
            forall|k: int| 0 <= k < i ==> degraded_ok(degraded_all(devs@)[k], #[trigger] out@[k]),
        decreases ports.len() - i,
    {
        let c = &ports[i];
        assert(degraded_view(ports@[i as int]) == degraded_all(devs@)[i as int]);
        let mut e = owned("This link negotiated ");
        push_long(&mut e, c.speed_mbps);
        push_str(&mut e, " Mbps while other ports on ");
        push_str(&mut e, c.switch_name.as_str());
        push_str(&mut e, " run at ");
        push_long(&mut e, c.fastest_mbps);
        push_str(
            &mut e,
            " Mbps or more. Either the connected device only supports this speed, or the cable is faulty \u{2014} a gigabit link with a damaged wire pair falls back to exactly 100 Mbps.",
        );
        proof {
            assert(e@ =~= degraded_text(c.speed_mbps, c.switch_name@, c.fastest_mbps));
        }
        out.push(
            DegradedLink {
                switch_name: copy_text(&c.switch_name),
                port: c.port,
                port_name: copy_opt(&c.port_name),
                speed_mbps: c.speed_mbps,
                explanation: e,
            },
        );
        i += 1;
    }
    out
}

/* ------------------------------------------------------------ the join */

/// The scanner's own host and the gateway are not clients.
pub open spec fn exempt(d: Device) -> bool {
    d.is_self || d.is_gateway
}

/// A scanned device after the join: enriched where the controller has its
/// record, untouched otherwise.
pub open spec fn joined(old: Device, data: ControllerData, now: i64, new: Device) -> bool {
    match record_of(data, old) {
        Some(r) => enriched_ok(old, r, data, now, new),
        None => new == old,
    }
}

/// How many scanned devices the controller has a record for.
pub open spec fn matched_count(ds: Seq<Device>, data: ControllerData) -> nat
    decreases ds.len(),
{
    if ds.len() == 0 {
        0
    } else {
        matched_count(ds.drop_last(), data) + (if record_of(data, ds.last()) is Some { 1nat } else { 0nat })
    }
}

/// The scanned devices the controller has no record of, but for the exempt.
pub open spec fn shadow_rows(ds: Seq<Device>, data: ControllerData) -> Seq<Device>
    decreases ds.len(),
{
    if ds.len() == 0 {
        seq![]
    } else if record_of(data, ds.last()) is None && !exempt(ds.last()) {
        shadow_rows(ds.drop_last(), data).push(ds.last())
    } else {
        shadow_rows(ds.drop_last(), data)
    }
}

/// A shadow entry for an unrecorded device.
pub open spec fn shadow_ok(d: Device, s: ShadowDevice) -> bool {
    &&& s.ip@ == d.ip@
    &&& s.display_name@ == d.display_name@
    &&& s.mac == d.mac
    &&& s.vendor == d.vendor
    &&& s.open_ports@ == d.ports@.map_values(|p: crate::types::PortInfo| p.port)
    &&& s.reason == (if d.mac is Some {
        ShadowReason::UnknownToController
    } else {
        ShadowReason::Unidentified
    })
    &&& s.explanation@ == explain_spec(s.reason)
}

/// The scanner's own host and the gateway when the controller does not know
/// them: the devices neither matched nor reported.
pub open spec fn exempt_unmatched(ds: Seq<Device>, data: ControllerData) -> nat
    decreases ds.len(),
{
    if ds.len() == 0 {
        0
    } else {
        exempt_unmatched(ds.drop_last(), data) + (if record_of(data, ds.last()) is None && exempt(ds.last()) {
            1nat
        } else {
            0nat
        })
    }
}

/// The reconciliation quadrant accounts for every scanned device exactly
/// once: matched with a controller record, reported as a shadow, or the
/// scanner's own host or gateway left out.
pub proof fn law_every_device_accounted(ds: Seq<Device>, data: ControllerData)
    ensures
        matched_count(ds, data) + shadow_rows(ds, data).len() + exempt_unmatched(ds, data) == ds.len(),
    decreases ds.len(),
{
    if ds.len() > 0 {
        law_every_device_accounted(ds.drop_last(), data);
    }
}

/// The controller's fingerprint text for a client.
pub open spec fn controller_fingerprint(r: UnifiClientRecord) -> Option<Seq<char>> {
    if fingerprint_parts(r).len() > 0 {
        Some(join(fingerprint_parts(r), " \u{b7} "@))
    } else {
        None
    }
}

pub open spec fn guest_line(d: Device) -> Seq<char> {
    d.display_name@ + " ("@ + d.ip@ + ") is on the guest network but is listening on "@ + dec(d.ports@.len())
        + " open port(s). Guest devices normally initiate connections rather than accept them \u{2014} worth checking whether it belongs on the main network instead, or should not be here at all."@
}

pub open spec fn opt_line(o: Option<Seq<char>>) -> Seq<Seq<char>> {
    match o {
        Some(x) => seq![x],
        None => seq![],
    }
}

/// The identity findings for one joined device: its fingerprint contradicting
/// its services, then a guest accepting connections.
pub open spec fn conflicts_of(d: Device, r: UnifiClientRecord) -> Seq<Seq<char>> {
    opt_line(conflict_spec(d, controller_fingerprint(r))) + (if r.is_guest == Some(true) && d.ports@.len() > 0 {
        seq![guest_line(d)]
    } else {
        seq![]
    })
}

/// The identity findings over the joined devices, in order.
pub open spec fn conflict_lines(ds: Seq<Device>, data: ControllerData) -> Seq<Seq<char>>
    decreases ds.len(),
{
    if ds.len() == 0 {
        seq![]
    } else {
        conflict_lines(ds.drop_last(), data) + match record_of(data, ds.last()) {
            Some(r) => conflicts_of(ds.last(), r),
            None => seq![],
        }
    }
}

/// A record whose client the controller rates as struggling on Wi-Fi.
pub open spec fn struggling(r: UnifiClientRecord) -> bool {
    (r.is_wired == Some(false) || r.ap_mac is Some) && (low_score(r) || weak_signal(r))
}

/// The joined devices whose records show a struggling wireless client.
pub open spec fn wireless_rows(ds: Seq<Device>, data: ControllerData) -> Seq<(Device, UnifiClientRecord)>
    decreases ds.len(),
{
    if ds.len() == 0 {
        seq![]
    } else {
        let prev = wireless_rows(ds.drop_last(), data);
        match record_of(data, ds.last()) {
            Some(r) => if struggling(r) {
                prev.push((ds.last(), r))
            } else {
                prev
            },
            None => prev,
        }
    }
}

/// The MACs of the scanned devices the controller has a record for.
pub open spec fn seen_macs(ds: Seq<Device>, data: ControllerData) -> Seq<Seq<char>>
    decreases ds.len(),
{
    if ds.len() == 0 {
        seq![]
    } else if record_of(data, ds.last()) is Some {
        seen_macs(ds.drop_last(), data).push(ds.last().mac.unwrap()@)
    } else {
        seen_macs(ds.drop_last(), data)
    }
}

/// What the pass over the devices has gathered.
struct Tally {
    matched: usize,
    shadow: Vec<ShadowDevice>,
    conflicts: Vec<String>,
    wireless: Vec<WirelessHealthIssue>,
    seen: Vec<String>,
}

spec fn tally_ok(t: Tally, olds: Seq<Device>, news: Seq<Device>, data: ControllerData) -> bool {
    &&& t.matched == matched_count(olds, data)
    &&& t.shadow@.len() == shadow_rows(olds, data).len()
    &&& forall|k: int| 0 <= k < t.shadow@.len() ==> shadow_ok(shadow_rows(olds, data)[k], #[trigger] t.shadow@[k])
    &&& strings_view(t.conflicts@) == conflict_lines(news, data)
    &&& t.wireless@.len() == wireless_rows(news, data).len()
    &&& forall|k: int|
        0 <= k < t.wireless@.len() ==> wireless_issue_ok(
            wireless_rows(news, data)[k].0,
            wireless_rows(news, data)[k].1,
            Some(#[trigger] t.wireless@[k]),
        )
    &&& strings_view(t.seen@) == seen_macs(olds, data)
}

fn port_numbers(ports: &Vec<crate::types::PortInfo>) -> (out: Vec<u16>)
    ensures
        out@ == ports@.map_values(|p: crate::types::PortInfo| p.port),
{
    let mut out: Vec<u16> = Vec::new();
    let mut i: usize = 0;
    while i < ports.len()
        invariant
            i <= ports@.len(),
            out@ == ports@.take(i as int).map_values(|p: crate::types::PortInfo| p.port),
        decreases ports.len() - i,
    {
        out.push(ports[i].port);
        i += 1;
        assert(out@ =~= ports@.take(i as int).map_values(|p: crate::types::PortInfo| p.port));
    }
    assert(ports@.take(ports@.len() as int) =~= ports@);
    out
}

fn shadow_entry(d: &Device) -> (s: ShadowDevice)
    ensures
        shadow_ok(*d, s),
{
    let reason = if d.mac.is_some() {
        ShadowReason::UnknownToController
    } else {
        ShadowReason::Unidentified
    };
    ShadowDevice {
        ip: copy_text(&d.ip),
        display_name: copy_text(&d.display_name),
        mac: copy_opt(&d.mac),
        vendor: copy_opt(&d.vendor),
        open_ports: port_numbers(&d.ports),
        reason,
        explanation: owned(reason.explain()),
    }
}

fn guest_finding(d: &Device) -> (t: String)
    ensures
        t@ == guest_line(*d),
{
    let mut t = copy_text(&d.display_name);
    push_str(&mut t, " (");
    push_str(&mut t, d.ip.as_str());
    push_str(&mut t, ") is on the guest network but is listening on ");
    push_dec(&mut t, d.ports.len() as u64);
    push_str(
        &mut t,
        " open port(s). Guest devices normally initiate connections rather than accept them \u{2014} worth checking whether it belongs on the main network instead, or should not be here at all.",
    );
    t
}

fn opt_str(o: &Option<String>) -> (r: Option<&str>)
    ensures
        match r {
            Some(t) => *o matches Some(x) && t@ == x@,
            None => o is None,
        },
{
    match o {
        Some(x) => Some(x.as_str()),
        None => None,
    }
}

/// Joins one scanned device and adds what it shows to the tally.
fn visit(device: &mut Device, data: &ControllerData, now: i64, t: &mut Tally, Ghost(olds): Ghost<Seq<Device>>, Ghost(news): Ghost<Seq<Device>>)
    requires
        tally_ok(*old(t), olds, news, *data),
        olds.len() == news.len(),
        old(t).matched <= olds.len(),
        olds.len() < usize::MAX,
    ensures
        joined(*old(device), *data, now, *final(device)),
        tally_ok(*final(t), olds.push(*old(device)), news.push(*final(device)), *data),
        final(t).matched <= olds.len() + 1,
{
    let ghost d0 = *device;
    let ghost t0 = *t;
    let ghost olds2 = olds.push(d0);
    proof {
        assert(olds2.drop_last() =~= olds);
        assert(olds2.last() == d0);
    }
    let record = match &device.mac {
        Some(m) => lookup_client(&data.clients, &data.known_clients, m.as_str()),
        None => None,
    };
    match record {
        None => {
            assert(record_of(*data, d0) is None);
            if !(device.is_self || device.is_gateway) {
                let e = shadow_entry(device);
                t.shadow.push(e);
                proof {
                    assert(shadow_rows(olds2, *data) == shadow_rows(olds, *data).push(d0));
                    assert forall|k: int| 0 <= k < t.shadow@.len() implies shadow_ok(
                        shadow_rows(olds2, *data)[k],
                        #[trigger] t.shadow@[k],
                    ) by {
                        if k < t0.shadow@.len() {
                            assert(t.shadow@[k] == t0.shadow@[k]);
                        }
                    }
                }
            }
            proof {
                let news2 = news.push(*device);
                assert(news2.drop_last() =~= news);
                assert(news2.last() == d0);
                assert(record_of(*data, news2.last()) is None);
            }
        },
        Some(r) => {
            assert(record_of(*data, d0) == Some(*r));
            t.matched = t.matched + 1;
            let mac = copy_text(device.mac.as_ref().unwrap());
            let ghost seen0 = t.seen@;
            t.seen.push(mac);
            proof {
                assert(strings_view(t.seen@) =~= strings_view(seen0).push(d0.mac.unwrap()@));
            }
            enrich(device, r, data, now);
            let ghost d1 = *device;
            assert(d1.mac == d0.mac);
            assert(record_of(*data, d1) == Some(*r));
            let fp = r.fingerprint();
            let ghost c0 = t.conflicts@;
            match detect_identity_conflict(device, opt_str(&fp)) {
                Some(c) => {
                    t.conflicts.push(c);
                },
                None => {},
            }
            if r.is_guest == Some(true) && device.ports.len() > 0 {
                let g = guest_finding(device);
                t.conflicts.push(g);
            }
            proof {
                assert(strings_view(t.conflicts@) =~= strings_view(c0) + conflicts_of(d1, *r));
            }
            let ghost w0 = t.wireless@;
            match detect_wireless_issue(device, r) {
                Some(w) => {
                    t.wireless.push(w);
                },
                None => {},
            }
            proof {
                let news2 = news.push(d1);
                assert(news2.drop_last() =~= news);
                assert(news2.last() == d1);
                assert(conflict_lines(news2, *data) == conflict_lines(news, *data) + conflicts_of(d1, *r));
                assert forall|k: int| 0 <= k < t.wireless@.len() implies wireless_issue_ok(
                    wireless_rows(news2, *data)[k].0,
                    wireless_rows(news2, *data)[k].1,
                    Some(#[trigger] t.wireless@[k]),
                ) by {
                    if k < w0.len() {
                        assert(t.wireless@[k] == w0[k]);
                        assert(wireless_rows(news2, *data)[k] == wireless_rows(news, *data)[k]);
                    }
                }
            }
        },
    }
}

fn missed_devices(data: &ControllerData, seen: &Vec<String>, blind: &Vec<UnscannedNetwork>, now: i64) -> (out: Vec<MissedDevice>)
    ensures
        out@.len() == missed_rows(data.clients@, strings_view(seen@), now).len(),
        forall|k: int|
            0 <= k < out@.len() ==> missed_ok(
                missed_rows(data.clients@, strings_view(seen@), now)[k],
                *data,
                blind@,
                now,
                #[trigger] out@[k],
            ),
{
    let ghost sv = strings_view(seen@);
    let ghost cs = data.clients@;
    let mut out: Vec<MissedDevice> = Vec::new();
    let mut i: usize = 0;
    while i < data.clients.len()
        invariant
            i <= cs.len(),
            cs == data.clients@,
            sv == strings_view(seen@),
            out@.len() == missed_rows(cs.take(i as int), sv, now).len(),
            forall|k: int|
                0 <= k < out@.len() ==> missed_ok(missed_rows(cs.take(i as int), sv, now)[k], *data, blind@, now, #[trigger] out@[k]),
        decreases cs.len() - i,
    {
        proof {
            assert(cs.take(i + 1).drop_last() =~= cs.take(i as int));
            assert(cs.take(i + 1).last() == cs[i as int]);
        }
        let r = &data.clients[i];
        i += 1;
        let mac = match &r.mac {
            Some(m) => m,
            None => {
                continue;
            },
        };
        if contains_text(seen, mac) {
            continue;
        }
        let stale = match r.last_seen {
            Some(t) => (t as i128) < (now as i128) - 86400,
            None => false,
        };
        if stale {
            continue;
        }
        let m = missed_entry(r, data, blind, now);
        let ghost before = out@;
        out.push(m);
        proof {
            assert forall|k: int| 0 <= k < out@.len() implies missed_ok(
                missed_rows(cs.take(i as int), sv, now)[k],
                *data,
                blind@,
                now,
                #[trigger] out@[k],
            ) by {
                if k < before.len() {
                    assert(out@[k] == before[k]);
                }
            }
        }
    }
    assert(cs.take(cs.len() as int) =~= cs);
    out
}

/// What joining the controller's data into a scan yields, against the clock
/// reading `now` (epoch seconds).
pub open spec fn reconciled(
    olds: Seq<Device>,
    data: ControllerData,
    scanned: Seq<Seq<char>>,
    now: i64,
    news: Seq<Device>,
    r: Reconciliation,
) -> bool {
    let targets = scanned_ranges(scanned);
    let blind = blind_spots(data.networks@, targets);
    let missed = missed_rows(data.clients@, seen_macs(olds, data), now);
    &&& news.len() == olds.len()
    &&& forall|k: int| 0 <= k < olds.len() ==> joined(olds[k], data, now, #[trigger] news[k])
    &&& r.matched == matched_count(olds, data)
    &&& r.shadow@.len() == shadow_rows(olds, data).len()
    &&& forall|k: int| 0 <= k < r.shadow@.len() ==> shadow_ok(shadow_rows(olds, data)[k], #[trigger] r.shadow@[k])
    &&& strings_view(r.identity_conflicts@) == conflict_lines(news, data)
    &&& r.wireless_issues@.len() == wireless_rows(news, data).len()
    &&& forall|k: int|
        0 <= k < r.wireless_issues@.len() ==> wireless_issue_ok(
            wireless_rows(news, data)[k].0,
            wireless_rows(news, data)[k].1,
            Some(#[trigger] r.wireless_issues@[k]),
        )
    &&& r.unscanned_networks@.len() == blind.len()
    &&& forall|k: int| 0 <= k < blind.len() ==> unscanned_ok(blind[k], #[trigger] r.unscanned_networks@[k])
    &&& r.missed@.len() == missed.len()
    &&& forall|k: int|
        0 <= k < missed.len() ==> missed_ok(missed[k], data, r.unscanned_networks@, now, #[trigger] r.missed@[k])
    &&& forall|k: int| 0 <= k < r.flapping_clients@.len() ==> flap_ok(data, #[trigger] r.flapping_clients@[k])
    &&& forall|i: int, j: int|
        0 <= i < j < r.flapping_clients@.len() ==> r.flapping_clients@[i].disconnects
            >= r.flapping_clients@[j].disconnects
    &&& forall|i: int, j: int|
        0 <= i < j < r.flapping_clients@.len() ==> r.flapping_clients@[i].mac@ != r.flapping_clients@[j].mac@
    &&& forall|m: Seq<char>|
        drops(data.raw_events@, m).len() >= 3 ==> exists|k: int|
            0 <= k < r.flapping_clients@.len() && #[trigger] r.flapping_clients@[k].mac@ == m
    &&& r.hidden_segments@.len() == crowded_all(data.raw_devices@).len()
    &&& forall|k: int|
        0 <= k < r.hidden_segments@.len() ==> hidden_ok(crowded_all(data.raw_devices@)[k], #[trigger] r.hidden_segments@[k])
    &&& r.degraded_links@.len() == degraded_all(data.raw_devices@).len()
    &&& forall|k: int|
        0 <= k < r.degraded_links@.len() ==> degraded_ok(degraded_all(data.raw_devices@)[k], #[trigger] r.degraded_links@[k])
    &&& r.summary@ == summary_spec(r)
}

/// Merges controller data into the device list and produces the quadrant,
/// with `now` as the current time in epoch seconds.
///
/// Enrichment is additive: a controller alias improves `display_name`, and
/// location/VLAN/signal become new fields. Nothing the scanner observed
/// first-hand is overwritten, because the scan measured it and the
/// controller only believes it. `scanned_cidrs` are the ranges this scan
/// targeted, used to name the configured networks it never looked at.
pub fn apply_at(devices: &mut Vec<Device>, data: &ControllerData, scanned_cidrs: &Vec<String>, now: i64) -> (r: Reconciliation)
    ensures
        reconciled(old(devices)@, *data, strings_view(scanned_cidrs@), now, final(devices)@, r),
{
    let ghost olds = devices@;
    let unscanned = find_unscanned_networks(&data.networks, scanned_cidrs);
    let mut t = Tally { matched: 0, shadow: Vec::new(), conflicts: Vec::new(), wireless: Vec::new(), seen: Vec::new() };
    proof {
        assert(olds.take(0) =~= Seq::<Device>::empty());
        assert(devices@.take(0) =~= Seq::<Device>::empty());
        assert(strings_view(t.conflicts@) =~= Seq::<Seq<char>>::empty());
        assert(strings_view(t.seen@) =~= Seq::<Seq<char>>::empty());
    }
    let mut i: usize = 0;
    while i < devices.len()
        invariant
            i <= devices@.len(),
            devices@.len() == olds.len(),
            forall|k: int| 0 <= k < i ==> joined(olds[k], *data, now, #[trigger] devices@[k]),
            forall|k: int| i <= k < olds.len() ==> #[trigger] devices@[k] == olds[k],
            tally_ok(t, olds.take(i as int), devices@.take(i as int), *data),
            t.matched <= i,
        decreases devices.len() - i,
    {
        let ghost before = devices@;
        proof {
            assert(before[i as int] == olds[i as int]);
        }
        visit(&mut devices[i], data, now, &mut t, Ghost(olds.take(i as int)), Ghost(before.take(i as int)));
        proof {
            assert(olds.take(i + 1) =~= olds.take(i as int).push(olds[i as int]));
            assert(devices@.take(i + 1) =~= before.take(i as int).push(devices@[i as int]));
            assert forall|k: int| 0 <= k < i + 1 implies joined(olds[k], *data, now, #[trigger] devices@[k]) by {
                if k < i {
                    assert(devices@[k] == before[k]);
                }
            }
        }
        i += 1;
    }
    proof {
        assert(olds.take(olds.len() as int) =~= olds);
        assert(devices@.take(devices@.len() as int) =~= devices@);
    }
    let missed = missed_devices(data, &t.seen, &unscanned, now);
    let flapping = flapping_clients(data);
    let hidden = hidden_segments(&data.raw_devices);
    let degraded = degraded_links(&data.raw_devices);
    let mut r = Reconciliation {
        matched: t.matched,
        shadow: t.shadow,
        missed,
        hidden_segments: hidden,
        identity_conflicts: t.conflicts,
        wireless_issues: t.wireless,
        degraded_links: degraded,
        unscanned_networks: unscanned,
        flapping_clients: flapping,
        summary: String::new(),
    };
    r.summary = r.build_summary();
    r
}

/// Merges controller data into the device list against the current time:
/// what holds is what `apply_at` states, for the time the clock read.
pub fn apply(devices: &mut Vec<Device>, data: &ControllerData, scanned_cidrs: &Vec<String>) -> (r: Reconciliation)
    ensures
        exists|now: i64| reconciled(old(devices)@, *data, strings_view(scanned_cidrs@), now, final(devices)@, r),
{
    let now = crate::clock::unix_now();
    apply_at(devices, data, scanned_cidrs, now)
}

} // verus!
