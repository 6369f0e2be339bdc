//! Capability doctor: what the app can actually do on this machine, and what
//! is lost when something is missing.
//!
//! The probes themselves run outside the library; this module holds the
//! report's shape and the rules that fold the probes into one verdict.
use crate::platform::ToolRef;
use crate::oui::OuiTableInfo;
use crate::text::{join_strings, bytes_of, byte_len, chars_of, copy_chars, copy_text, cut_at, cut_bytes, slice_chars, dec, join, join_chars, owned, push_dec, push_str, string_of, strings_view, strip_suffix, views};
use vstd::prelude::*;

verus! {

/// How badly a missing capability hurts.
#[derive(Debug, Clone, Copy, PartialEq, Eq, Structural, PartialOrd, Ord, Hash)]
pub enum Tier {
    /// The app cannot perform a scan at all without this.
    Critical,
    /// A major feature is lost, but scanning still produces useful results.
    Important,
    /// A nice-to-have; its absence narrows detail only.
    Optional,
}

#[derive(Debug, Clone, Copy, PartialEq, Eq, Structural, Hash)]
pub enum CapabilityStatus {
    /// Verified working.
    Working,
    /// Present but limited: reduced results rather than none.
    Degraded,
    /// Not working at all.
    Missing,
}

#[derive(Debug, Clone)]
pub struct CapabilityReport {
    pub id: String,
    pub label: String,
    /// What this capability provides, in plain language.
    pub purpose: String,
    pub tier: Tier,
    pub status: CapabilityStatus,
    /// The command or OS facility this depends on, if any.
    pub tool: Option<String>,
    /// What the probe actually observed.
    pub detail: String,
    /// Which app features stop working, listed for the user.
    pub affects: Vec<String>,
    /// How to fix it on this OS. Absent when nothing needs fixing.
    pub remedy: Option<String>,
}

impl CapabilityReport {
    /// A capability verified working: nothing is affected, nothing to fix.
    pub fn ok(id: &str, label: &str, purpose: &str, tier: Tier, tool: Option<&str>, detail: String) -> (r: Self)
        ensures
            r.id@ == id@,
            r.label@ == label@,
            r.purpose@ == purpose@,
            r.tier == tier,
            r.status == CapabilityStatus::Working,
            match tool {
                Some(t) => r.tool matches Some(x) && x@ == t@,
                None => r.tool is None,
            },
            r.detail == detail,
            r.affects@.len() == 0,
            r.remedy is None,
    {
        CapabilityReport {
            id: owned(id),
            label: owned(label),
            purpose: owned(purpose),
            tier,
            status: CapabilityStatus::Working,
            tool: match tool {
                Some(t) => Some(owned(t)),
                None => None,
            },
            detail,
            affects: Vec::new(),
            remedy: None,
        }
    }
}

#[derive(Debug, Clone, Copy)]
pub struct DoctorCounts {
    pub ok: usize,
    pub degraded: usize,
    pub missing: usize,
    pub critical_missing: usize,
}

impl Default for DoctorCounts {
    fn default() -> (c: Self)
        ensures
            c.ok == 0 && c.degraded == 0 && c.missing == 0 && c.critical_missing == 0,
    {
        DoctorCounts { ok: 0, degraded: 0, missing: 0, critical_missing: 0 }
    }
}

#[derive(Debug, Clone)]
pub struct DoctorReport {
    pub os: String,
    pub checked_at: String,
    pub capabilities: Vec<CapabilityReport>,
    /// True when at least one Critical capability is missing: the app cannot scan.
    pub blocked: bool,
    /// One-line summary for the status bar.
    pub summary: String,
    pub counts: DoctorCounts,
}

/// A count with its noun, pluralised: one `entry`, three `entries`, two
/// `interfaces`.
pub open spec fn plural_spec(count: nat, noun: Seq<char>) -> Seq<char> {
    if count == 1 {
        dec(count) + " "@ + noun
    } else {
        match strip_suffix(noun, "y"@) {
            Some(stem) => dec(count) + " "@ + stem + "ies"@,
            None => dec(count) + " "@ + noun + "s"@,
        }
    }
}

pub fn plural(count: usize, noun: &str) -> (s: String)
    ensures
        s@ == plural_spec(count as nat, noun@),
{
    let mut s = String::new();
    push_dec(&mut s, count as u64);
    push_str(&mut s, " ");
    if count == 1 {
        push_str(&mut s, noun);
        return s;
    }
    let n = chars_of(noun);
    let len = n.len();
    if len > 0 && n[len - 1] == 'y' {
        let stem = crate::text::slice_chars(&n, 0, len - 1);
        crate::text::push_chars(&mut s, &stem);
        push_str(&mut s, "ies");
        proof {
            reveal_strlit("y");
            assert(noun@.subrange(noun@.len() - 1, noun@.len() as int) =~= "y"@);
            assert(strip_suffix(noun@, "y"@) == Some(noun@.subrange(0, noun@.len() - 1)));
        }
    } else {
        push_str(&mut s, noun);
        push_str(&mut s, "s");
        proof {
            reveal_strlit("y");
            if noun@.len() > 0 {
                assert(noun@.subrange(noun@.len() - 1, noun@.len() as int)[0] == noun@[noun@.len() - 1]);
            }
            assert(strip_suffix(noun@, "y"@) is None);
        }
    }
    s
}

/// How many capabilities are in each state, counted over the reports.
pub open spec fn counts_of(caps: Seq<CapabilityReport>) -> (nat, nat, nat, nat)
    decreases caps.len(),
{
    if caps.len() == 0 {
        (0, 0, 0, 0)
    } else {
        let p = counts_of(caps.drop_last());
        let c = caps.last();
        match c.status {
            CapabilityStatus::Working => (p.0 + 1, p.1, p.2, p.3),
            CapabilityStatus::Degraded => (p.0, p.1 + 1, p.2, p.3),
            CapabilityStatus::Missing => (p.0, p.1, p.2 + 1, if c.tier == Tier::Critical {
                p.3 + 1
            } else {
                p.3
            }),
        }
    }
}

/// Every capability is counted once, and a critical one among the missing.
pub proof fn lemma_counts_cover(caps: Seq<CapabilityReport>)
    ensures
        counts_of(caps).0 + counts_of(caps).1 + counts_of(caps).2 == caps.len(),
        counts_of(caps).3 <= counts_of(caps).2,
    decreases caps.len(),
{
    if caps.len() > 0 {
        lemma_counts_cover(caps.drop_last());
    }
}

/// Tallies the reports by status.
pub fn tally(caps: &Vec<CapabilityReport>) -> (c: DoctorCounts)
    ensures
        (c.ok as nat, c.degraded as nat, c.missing as nat, c.critical_missing as nat) == counts_of(caps@),
{
    let mut c = DoctorCounts::default();
    let mut i: usize = 0;
    while i < caps.len()
        invariant
            i <= caps@.len(),
            (c.ok as nat, c.degraded as nat, c.missing as nat, c.critical_missing as nat) == counts_of(
                caps@.take(i as int),
            ),
        decreases caps.len() - i,
    {
        proof {
            assert(caps@.take(i + 1).drop_last() =~= caps@.take(i as int));
            lemma_counts_cover(caps@.take(i as int));
        }
        let cap = &caps[i];
        match cap.status {
            CapabilityStatus::Working => c.ok = c.ok + 1,
            CapabilityStatus::Degraded => c.degraded = c.degraded + 1,
            CapabilityStatus::Missing => {
                c.missing = c.missing + 1;
                if cap.tier == Tier::Critical {
                    c.critical_missing = c.critical_missing + 1;
                }
            },
        }
        i += 1;
    }
    assert(caps@.take(caps@.len() as int) =~= caps@);
    c
}

/// The labels of the missing critical capabilities, in order.
pub open spec fn blocking_labels(caps: Seq<CapabilityReport>) -> Seq<Seq<char>>
    decreases caps.len(),
{
    if caps.len() == 0 {
        seq![]
    } else if caps.last().tier == Tier::Critical && caps.last().status == CapabilityStatus::Missing {
        blocking_labels(caps.drop_last()).push(caps.last().label@)
    } else {
        blocking_labels(caps.drop_last())
    }
}

/// The status-bar line: what blocks a scan, else how many checks are
/// reduced, else that all passed.
pub open spec fn summary_spec(caps: Seq<CapabilityReport>, c: DoctorCounts) -> Seq<char> {
    if c.critical_missing > 0 {
        "Cannot scan \u{2014} required capability unavailable: "@ + join(blocking_labels(caps), ", "@)
    } else if c.missing > 0 || c.degraded > 0 {
        dec(c.ok as nat) + " working, "@ + dec(c.degraded as nat) + " limited, "@ + dec(c.missing as nat)
            + " unavailable \u{2014} some features are reduced"@
    } else {
        "All "@ + dec(c.ok as nat) + " checks passed"@
    }
}

pub fn summarize(caps: &Vec<CapabilityReport>, c: &DoctorCounts) -> (s: String)
    ensures
        s@ == summary_spec(caps@, *c),
{
    if c.critical_missing > 0 {
        let mut names: Vec<Vec<char>> = Vec::new();
        let mut i: usize = 0;
        while i < caps.len()
            invariant
                i <= caps@.len(),
                views(names@) == blocking_labels(caps@.take(i as int)),
            decreases caps.len() - i,
        {
            proof {
                assert(caps@.take(i + 1).drop_last() =~= caps@.take(i as int));
            }
            let cap = &caps[i];
            if cap.tier == Tier::Critical && cap.status == CapabilityStatus::Missing {
                let ghost before = names@;
                let l = chars_of(cap.label.as_str());
                names.push(l);
                proof {
                    crate::text::lemma_views_push(before, l);
                }
            }
            i += 1;
        }
        assert(caps@.take(caps@.len() as int) =~= caps@);
        let mut s = owned("Cannot scan \u{2014} required capability unavailable: ");
        let sep = chars_of(", ");
        let joined = join_chars(&names, &sep);
        crate::text::push_chars(&mut s, &joined);
        s
    } else if c.missing > 0 || c.degraded > 0 {
        let mut s = String::new();
        push_dec(&mut s, c.ok as u64);
        push_str(&mut s, " working, ");
        push_dec(&mut s, c.degraded as u64);
        push_str(&mut s, " limited, ");
        push_dec(&mut s, c.missing as u64);
        push_str(&mut s, " unavailable \u{2014} some features are reduced");
        s
    } else {
        let mut s = owned("All ");
        push_dec(&mut s, c.ok as u64);
        push_str(&mut s, " checks passed");
        s
    }
}

/// Folds the probes' reports into the doctor's verdict.
pub fn assemble(os: String, checked_at: String, capabilities: Vec<CapabilityReport>) -> (r: DoctorReport)
    ensures
        r.os == os,
        r.checked_at == checked_at,
        r.capabilities == capabilities,
        (r.counts.ok as nat, r.counts.degraded as nat, r.counts.missing as nat, r.counts.critical_missing as nat)
            == counts_of(capabilities@),
        r.blocked == (r.counts.critical_missing > 0),
        r.summary@ == summary_spec(capabilities@, r.counts),
{
    let counts = tally(&capabilities);
    let summary = summarize(&capabilities, &counts);
    DoctorReport { os, checked_at, capabilities, blocked: counts.critical_missing > 0, summary, counts }
}

/* ------------------------------------------------------------- the checks */

/// A report has exactly these contents.
pub open spec fn shaped(
    r: CapabilityReport,
    id: Seq<char>,
    label: Seq<char>,
    purpose: Seq<char>,
    tier: Tier,
    status: CapabilityStatus,
    tool: Option<Seq<char>>,
    detail: Seq<char>,
    affects: Seq<Seq<char>>,
    remedy: Option<Seq<char>>,
) -> bool {
    &&& r.id@ == id
    &&& r.label@ == label
    &&& r.purpose@ == purpose
    &&& r.tier == tier
    &&& r.status == status
    &&& crate::scan::wifi::opt_text_view(r.tool) == tool
    &&& r.detail@ == detail
    &&& strings_view(r.affects@) == affects
    &&& crate::scan::wifi::opt_text_view(r.remedy) == remedy
}

fn build(
    id: &str,
    label: &str,
    purpose: &str,
    tier: Tier,
    status: CapabilityStatus,
    tool: Option<&str>,
    detail: String,
    affects: Vec<String>,
    remedy: Option<&str>,
) -> (r: CapabilityReport)
    ensures
        shaped(
            r,
            id@,
            label@,
            purpose@,
            tier,
            status,
            match tool {
                Some(t) => Some(t@),
                None => None,
            },
            detail@,
            strings_view(affects@),
            match remedy {
                Some(t) => Some(t@),
                None => None,
            },
        ),
{
    CapabilityReport {
        id: owned(id),
        label: owned(label),
        purpose: owned(purpose),
        tier,
        status,
        tool: match tool {
            Some(t) => Some(owned(t)),
            None => None,
        },
        detail,
        affects,
        remedy: match remedy {
            Some(t) => Some(owned(t)),
            None => None,
        },
    }
}

fn add_text(v: &mut Vec<String>, t: &str)
    ensures
        strings_view(final(v)@) == strings_view(old(v)@).push(t@),
{
    let ghost before = v@;
    v.push(owned(t));
    assert(strings_view(v@) =~= strings_view(before).push(t@));
}

fn nothing() -> (v: Vec<String>)
    ensures
        strings_view(v@) == Seq::<Seq<char>>::empty(),
{
    let v: Vec<String> = Vec::new();
    assert(strings_view(v@) =~= Seq::<Seq<char>>::empty());
    v
}

pub open spec fn interfaces_purpose() -> Seq<char> {
    "Determines which network this machine is on and what range to scan."@
}

/// A usable IPv4 interface: the one genuinely fatal precondition. `usable`
/// lists each non-loopback IPv4 interface as `name (address)`.
pub fn interfaces_report(usable: &Vec<String>) -> (r: CapabilityReport)
    ensures
        usable@.len() == 0 ==> shaped(
            r,
            "interfaces"@,
            "Network interface"@,
            interfaces_purpose(),
            Tier::Critical,
            CapabilityStatus::Missing,
            None,
            "No non-loopback IPv4 interface was found."@,
            seq!["Everything \u{2014} with no network address there is nothing to scan"@],
            Some(
                "Connect to a network (Wi-Fi or Ethernet) and re-run the check. If you are connected, check that the adapter has an IPv4 address rather than only IPv6."@,
            ),
        ),
        usable@.len() > 0 ==> shaped(
            r,
            "interfaces"@,
            "Network interface"@,
            interfaces_purpose(),
            Tier::Critical,
            CapabilityStatus::Working,
            None,
            "Found "@ + plural_spec(usable@.len(), "usable interface"@) + ": "@ + join(strings_view(usable@), ", "@),
            seq![],
            None,
        ),
{
    if usable.len() == 0 {
        let affects = {
            let mut v = nothing();
            add_text(&mut v, "Everything \u{2014} with no network address there is nothing to scan");
            v
        };
        return build(
            "interfaces",
            "Network interface",
            "Determines which network this machine is on and what range to scan.",
            Tier::Critical,
            CapabilityStatus::Missing,
            None,
            owned("No non-loopback IPv4 interface was found."),
            affects,
            Some(
                "Connect to a network (Wi-Fi or Ethernet) and re-run the check. If you are connected, check that the adapter has an IPv4 address rather than only IPv6.",
            ),
        );
    }
    let mut detail = owned("Found ");
    let p = plural(usable.len(), "usable interface");
    push_str(&mut detail, p.as_str());
    push_str(&mut detail, ": ");
    let j = join_strings(usable, ", ");
    push_str(&mut detail, j.as_str());
    build(
        "interfaces",
        "Network interface",
        "Determines which network this machine is on and what range to scan.",
        Tier::Critical,
        CapabilityStatus::Working,
        None,
        detail,
        nothing(),
        None,
    )
}

pub open spec fn tcp_purpose() -> Seq<char> {
    "Finds open services, and detects hosts that ignore ping but accept connections."@
}

/// TCP connect scanning: `works` when a connection to this machine itself
/// succeeded. On Windows the note on dropped probes is added.
pub fn tcp_report(works: bool, windows: bool) -> (r: CapabilityReport)
    ensures
        works ==> shaped(
            r,
            "tcp-scan"@,
            "TCP port scanning"@,
            tcp_purpose(),
            Tier::Critical,
            CapabilityStatus::Working,
            None,
            if windows {
                "Outbound TCP connections work; the port scanner is functional. Note that Windows Firewall often drops rather than rejects connections to closed ports, so a device that ignores ping and has no open ports may not be detected."@
            } else {
                "Outbound TCP connections work; the port scanner is fully functional."@
            },
            seq![],
            None,
        ),
        !works ==> shaped(
            r,
            "tcp-scan"@,
            "TCP port scanning"@,
            tcp_purpose(),
            Tier::Critical,
            CapabilityStatus::Missing,
            None,
            "Could not open a TCP connection even to this machine."@,
            seq!["Port discovery"@, "Detecting devices that do not answer ping"@, "Service banners and TLS certificates"@],
            Some("A local firewall or sandbox is blocking outbound TCP. Allow this application through the firewall."@),
        ),
{
    let purpose = "Finds open services, and detects hosts that ignore ping but accept connections.";
    if works {
        let detail = if windows {
            owned(
                "Outbound TCP connections work; the port scanner is functional. Note that Windows Firewall often drops rather than rejects connections to closed ports, so a device that ignores ping and has no open ports may not be detected.",
            )
        } else {
            owned("Outbound TCP connections work; the port scanner is fully functional.")
        };
        build("tcp-scan", "TCP port scanning", purpose, Tier::Critical, CapabilityStatus::Working, None, detail, nothing(), None)
    } else {
        let affects = {
        let mut v = nothing();
        add_text(&mut v, "Port discovery");
        add_text(&mut v, "Detecting devices that do not answer ping");
        add_text(&mut v, "Service banners and TLS certificates");
        v
    };
        assert(strings_view(affects@) == seq!["Port discovery"@, "Detecting devices that do not answer ping"@, "Service banners and TLS certificates"@]);
        build(
            "tcp-scan",
            "TCP port scanning",
            purpose,
            Tier::Critical,
            CapabilityStatus::Missing,
            None,
            owned("Could not open a TCP connection even to this machine."),
            affects,
            Some("A local firewall or sandbox is blocking outbound TCP. Allow this application through the firewall."),
        )
    }
}

pub open spec fn icmp_affects() -> Seq<Seq<char>> {
    seq![
        "Fast host discovery (the scan falls back to slower TCP probing)"@,
        "Latency, jitter and packet-loss measurement"@,
        "MAC address resolution, which depends on the ARP cache being populated"@,
    ]
}

pub open spec fn icmp_purpose() -> Seq<char> {
    "Discovers live hosts quickly and measures latency and packet loss."@
}

/// ICMP, actually exercised: `found` when the ping tool is on the path,
/// `works` when pinging loopback succeeded.
pub fn icmp_report(tool: ToolRef, found: bool, works: bool, linux: bool) -> (r: CapabilityReport)
    ensures
        !found ==> shaped(
            r,
            "icmp"@,
            "ICMP ping"@,
            icmp_purpose(),
            Tier::Important,
            CapabilityStatus::Missing,
            Some(tool.command@),
            "`"@ + tool.command@ + "` was not found on PATH."@,
            icmp_affects(),
            Some(tool.remedy@),
        ),
        found && works ==> shaped(
            r,
            "icmp"@,
            "ICMP ping"@,
            icmp_purpose(),
            Tier::Important,
            CapabilityStatus::Working,
            Some(tool.command@),
            "Verified by pinging loopback \u{2014} ICMP works without elevated privileges."@,
            seq![],
            None,
        ),
        found && !works ==> shaped(
            r,
            "icmp"@,
            "ICMP ping"@,
            icmp_purpose(),
            Tier::Important,
            CapabilityStatus::Missing,
            Some(tool.command@),
            "`"@ + tool.command@ + "` is installed but the probe to 127.0.0.1 did not succeed."@,
            icmp_affects(),
            Some(
                if linux {
                    "`ping` exists but could not send an ICMP echo. Grant it the capability with `sudo setcap cap_net_raw+ep $(which ping)`, or allow unprivileged ICMP with `sudo sysctl -w net.ipv4.ping_group_range=\"0 2147483647\"`."@
                } else {
                    "`ping` exists but could not send an ICMP echo. Check whether a security product or firewall is blocking ICMP for this application."@
                },
            ),
        ),
{
    let purpose = "Discovers live hosts quickly and measures latency and packet loss.";
    if found && works {
        return build(
            "icmp",
            "ICMP ping",
            purpose,
            Tier::Important,
            CapabilityStatus::Working,
            Some(tool.command),
            owned("Verified by pinging loopback \u{2014} ICMP works without elevated privileges."),
            nothing(),
            None,
        );
    }
    let affects = {
        let mut v = nothing();
        add_text(&mut v, "Fast host discovery (the scan falls back to slower TCP probing)");
        add_text(&mut v, "Latency, jitter and packet-loss measurement");
        add_text(&mut v, "MAC address resolution, which depends on the ARP cache being populated");
        v
    };
    assert(strings_view(affects@) == icmp_affects());
    let mut detail = owned("`");
    push_str(&mut detail, tool.command);
    if !found {
        push_str(&mut detail, "` was not found on PATH.");
        assert(detail@ == "`"@ + tool.command@ + "` was not found on PATH."@);
        return build("icmp", "ICMP ping", purpose, Tier::Important, CapabilityStatus::Missing, Some(tool.command), detail, affects, Some(tool.remedy));
    }
    push_str(&mut detail, "` is installed but the probe to 127.0.0.1 did not succeed.");
    assert(detail@ == "`"@ + tool.command@ + "` is installed but the probe to 127.0.0.1 did not succeed."@);
    let hint = if linux {
        "`ping` exists but could not send an ICMP echo. Grant it the capability with `sudo setcap cap_net_raw+ep $(which ping)`, or allow unprivileged ICMP with `sudo sysctl -w net.ipv4.ping_group_range=\"0 2147483647\"`."
    } else {
        "`ping` exists but could not send an ICMP echo. Check whether a security product or firewall is blocking ICMP for this application."
    };
    build("icmp", "ICMP ping", purpose, Tier::Important, CapabilityStatus::Missing, Some(tool.command), detail, affects, Some(hint))
}

pub open spec fn arp_purpose() -> Seq<char> {
    "Reads MAC addresses of discovered devices, which identifies hardware vendors."@
}

/// The neighbour table: `found` when its tool is on the path, `entries` how
/// many neighbours it lists. Readable but empty is normal before a scan.
pub fn arp_report(tool: ToolRef, found: bool, entries: usize) -> (r: CapabilityReport)
    ensures
        !found ==> shaped(
            r,
            "arp"@,
            "ARP / neighbour table"@,
            arp_purpose(),
            Tier::Important,
            CapabilityStatus::Missing,
            Some(tool.command@),
            "`"@ + tool.command@ + "` was not found on PATH."@,
            seq![
                "MAC addresses for discovered devices"@,
                "Hardware vendor identification"@,
                "Detecting a device that changed IP address between scans"@,
                "Flagging phones using a randomized (private) MAC"@,
            ],
            Some(tool.remedy@),
        ),
        found && entries == 0 ==> shaped(
            r,
            "arp"@,
            "ARP / neighbour table"@,
            arp_purpose(),
            Tier::Important,
            CapabilityStatus::Degraded,
            Some(tool.command@),
            "`"@ + tool.command@
                + "` ran but the neighbour table is currently empty. This is normal before the first scan \u{2014} pinging hosts populates it."@,
            seq!["MAC addresses may be missing until a scan has run"@],
            None,
        ),
        found && entries > 0 ==> shaped(
            r,
            "arp"@,
            "ARP / neighbour table"@,
            arp_purpose(),
            Tier::Important,
            CapabilityStatus::Working,
            Some(tool.command@),
            "Readable \u{2014} "@ + plural_spec(entries as nat, "entry"@) + " currently cached."@,
            seq![],
            None,
        ),
{
    let purpose = "Reads MAC addresses of discovered devices, which identifies hardware vendors.";
    if !found {
        let affects = {
        let mut v = nothing();
        add_text(&mut v, "MAC addresses for discovered devices");
        add_text(&mut v, "Hardware vendor identification");
        add_text(&mut v, "Detecting a device that changed IP address between scans");
        add_text(&mut v, "Flagging phones using a randomized (private) MAC");
        v
    };
        assert(strings_view(affects@) == seq![
            "MAC addresses for discovered devices"@,
            "Hardware vendor identification"@,
            "Detecting a device that changed IP address between scans"@,
            "Flagging phones using a randomized (private) MAC"@,
        ]);
        let mut detail = owned("`");
        push_str(&mut detail, tool.command);
        push_str(&mut detail, "` was not found on PATH.");
        assert(detail@ == "`"@ + tool.command@ + "` was not found on PATH."@);
        return build("arp", "ARP / neighbour table", purpose, Tier::Important, CapabilityStatus::Missing, Some(tool.command), detail, affects, Some(tool.remedy));
    }
    if entries == 0 {
        let mut detail = owned("`");
        push_str(&mut detail, tool.command);
        push_str(
            &mut detail,
            "` ran but the neighbour table is currently empty. This is normal before the first scan \u{2014} pinging hosts populates it.",
        );
        assert(detail@ == "`"@ + tool.command@
            + "` ran but the neighbour table is currently empty. This is normal before the first scan \u{2014} pinging hosts populates it."@);
        let affects = {
        let mut v = nothing();
        add_text(&mut v, "MAC addresses may be missing until a scan has run");
        v
    };
        assert(strings_view(affects@) == seq!["MAC addresses may be missing until a scan has run"@]);
        return build("arp", "ARP / neighbour table", purpose, Tier::Important, CapabilityStatus::Degraded, Some(tool.command), detail, affects, None);
    }
    let mut detail = owned("Readable \u{2014} ");
    let p = plural(entries, "entry");
    push_str(&mut detail, p.as_str());
    push_str(&mut detail, " currently cached.");
    assert(detail@ == "Readable \u{2014} "@ + plural_spec(entries as nat, "entry"@) + " currently cached."@);
    build("arp", "ARP / neighbour table", purpose, Tier::Important, CapabilityStatus::Working, Some(tool.command), detail, nothing(), None)
}

pub open spec fn mdns_purpose() -> Seq<char> {
    "Finds device names and rich metadata \u{2014} ESPHome chip and firmware, Home Assistant version, Apple device names, printers and speakers."@
}

/// The multicast group for mDNS: `failure` holds why joining it failed, if it did.
pub fn mdns_report(failure: Option<String>) -> (r: CapabilityReport)
    ensures
        failure is None ==> shaped(
            r,
            "mdns"@,
            "mDNS / Bonjour discovery"@,
            mdns_purpose(),
            Tier::Optional,
            CapabilityStatus::Working,
            None,
            "Multicast socket opened successfully. This is built in \u{2014} no Avahi or Bonjour installation is required."@,
            seq![],
            None,
        ),
        failure matches Some(e) ==> shaped(
            r,
            "mdns"@,
            "mDNS / Bonjour discovery"@,
            mdns_purpose(),
            Tier::Optional,
            CapabilityStatus::Missing,
            None,
            "Could not join the mDNS multicast group: "@ + e@,
            seq![
                "Friendly device names"@,
                "Device metadata (firmware versions, models, capabilities)"@,
                "Discovery of devices on other subnets"@,
            ],
            Some("Allow this application to receive multicast UDP on port 5353 through your firewall."@),
        ),
{
    let purpose = "Finds device names and rich metadata \u{2014} ESPHome chip and firmware, Home Assistant version, Apple device names, printers and speakers.";
    match failure {
        None => build(
            "mdns",
            "mDNS / Bonjour discovery",
            purpose,
            Tier::Optional,
            CapabilityStatus::Working,
            None,
            owned("Multicast socket opened successfully. This is built in \u{2014} no Avahi or Bonjour installation is required."),
            nothing(),
            None,
        ),
        Some(e) => {
            let mut detail = owned("Could not join the mDNS multicast group: ");
            push_str(&mut detail, e.as_str());
            let mut affects = nothing();
            add_text(&mut affects, "Friendly device names");
            add_text(&mut affects, "Device metadata (firmware versions, models, capabilities)");
            add_text(&mut affects, "Discovery of devices on other subnets");
            assert(detail@ == "Could not join the mDNS multicast group: "@ + e@);
            assert(strings_view(affects@) == seq![
                "Friendly device names"@,
                "Device metadata (firmware versions, models, capabilities)"@,
                "Discovery of devices on other subnets"@,
            ]);
            build(
                "mdns",
                "mDNS / Bonjour discovery",
                purpose,
                Tier::Optional,
                CapabilityStatus::Missing,
                None,
                detail,
                affects,
                Some("Allow this application to receive multicast UDP on port 5353 through your firewall."),
            )
        },
    }
}

pub open spec fn ssdp_purpose() -> Seq<char> {
    "Reads manufacturer, model and serial number from routers, TVs, set-top boxes and media devices."@
}

/// Outbound multicast for SSDP: `bind_failure` holds why no UDP socket could
/// be opened, if none could; `sent` whether a datagram reached the group address.
pub fn ssdp_report(bind_failure: Option<String>, sent: bool) -> (r: CapabilityReport)
    ensures
        bind_failure matches Some(e) ==> shaped(
            r,
            "ssdp"@,
            "UPnP / SSDP discovery"@,
            ssdp_purpose(),
            Tier::Optional,
            CapabilityStatus::Missing,
            None,
            "Could not open a UDP socket: "@ + e@,
            seq!["Manufacturer, model and serial number for UPnP devices"@],
            Some("Allow this application to open UDP sockets."@),
        ),
        bind_failure is None && sent ==> shaped(
            r,
            "ssdp"@,
            "UPnP / SSDP discovery"@,
            ssdp_purpose(),
            Tier::Optional,
            CapabilityStatus::Working,
            None,
            "Multicast send succeeded. Built in \u{2014} no external UPnP tool required."@,
            seq![],
            None,
        ),
        bind_failure is None && !sent ==> shaped(
            r,
            "ssdp"@,
            "UPnP / SSDP discovery"@,
            ssdp_purpose(),
            Tier::Optional,
            CapabilityStatus::Missing,
            None,
            "Could not send to the SSDP multicast address."@,
            seq!["Manufacturer, model and serial number for UPnP devices"@],
            Some("Allow outbound multicast UDP to 239.255.255.250:1900."@),
        ),
{
    let purpose = "Reads manufacturer, model and serial number from routers, TVs, set-top boxes and media devices.";
    let mut affects = nothing();
    add_text(&mut affects, "Manufacturer, model and serial number for UPnP devices");
    assert(strings_view(affects@) == seq!["Manufacturer, model and serial number for UPnP devices"@]);
    match bind_failure {
        Some(e) => {
            let mut detail = owned("Could not open a UDP socket: ");
            push_str(&mut detail, e.as_str());
            build(
                "ssdp",
                "UPnP / SSDP discovery",
                purpose,
                Tier::Optional,
                CapabilityStatus::Missing,
                None,
                detail,
                affects,
                Some("Allow this application to open UDP sockets."),
            )
        },
        None => {
            if sent {
                build(
                    "ssdp",
                    "UPnP / SSDP discovery",
                    purpose,
                    Tier::Optional,
                    CapabilityStatus::Working,
                    None,
                    owned("Multicast send succeeded. Built in \u{2014} no external UPnP tool required."),
                    nothing(),
                    None,
                )
            } else {
                build(
                    "ssdp",
                    "UPnP / SSDP discovery",
                    purpose,
                    Tier::Optional,
                    CapabilityStatus::Missing,
                    None,
                    owned("Could not send to the SSDP multicast address."),
                    affects,
                    Some("Allow outbound multicast UDP to 239.255.255.250:1900."),
                )
            }
        },
    }
}

pub open spec fn dns_purpose() -> Seq<char> {
    "Resolves device names via reverse DNS and measures resolver response times."@
}

/// Name resolution, judged by the resolvers this machine is configured with.
pub fn dns_report(servers: &Vec<String>) -> (r: CapabilityReport)
    ensures
        servers@.len() == 0 ==> shaped(
            r,
            "dns"@,
            "DNS resolution"@,
            dns_purpose(),
            Tier::Important,
            CapabilityStatus::Missing,
            None,
            "No DNS servers are configured on this machine."@,
            seq!["Reverse-DNS device names"@, "DNS response-time measurement"@, "Public IP detection"@],
            Some(
                "Configure a DNS server in your network settings, or connect to a network that provides one via DHCP."@,
            ),
        ),
        servers@.len() > 0 ==> shaped(
            r,
            "dns"@,
            "DNS resolution"@,
            dns_purpose(),
            Tier::Important,
            CapabilityStatus::Working,
            None,
            plural_spec(servers@.len(), "resolver"@) + " configured: "@ + join(strings_view(servers@), ", "@),
            seq![],
            None,
        ),
{
    let purpose = "Resolves device names via reverse DNS and measures resolver response times.";
    if servers.len() == 0 {
        let mut affects = nothing();
        add_text(&mut affects, "Reverse-DNS device names");
        add_text(&mut affects, "DNS response-time measurement");
        add_text(&mut affects, "Public IP detection");
        assert(strings_view(affects@) == seq![
            "Reverse-DNS device names"@,
            "DNS response-time measurement"@,
            "Public IP detection"@,
        ]);
        return build(
            "dns",
            "DNS resolution",
            purpose,
            Tier::Important,
            CapabilityStatus::Missing,
            None,
            owned("No DNS servers are configured on this machine."),
            affects,
            Some(
                "Configure a DNS server in your network settings, or connect to a network that provides one via DHCP.",
            ),
        );
    }
    let mut detail = plural(servers.len(), "resolver");
    push_str(&mut detail, " configured: ");
    let j = join_strings(servers, ", ");
    push_str(&mut detail, j.as_str());
    build("dns", "DNS resolution", purpose, Tier::Important, CapabilityStatus::Working, None, detail, nothing(), None)
}


/// The path tools looked for, in order of preference.
pub open spec fn trace_candidates_spec(windows: bool) -> Seq<Seq<char>> {
    if windows {
        seq!["tracert"@]
    } else {
        seq!["mtr"@, "tracepath"@, "traceroute"@]
    }
}

/// The path tools to look for on this platform, best first.
pub fn trace_candidates(windows: bool) -> (v: Vec<String>)
    ensures
        strings_view(v@) == trace_candidates_spec(windows),
{
    let mut v = nothing();
    if windows {
        add_text(&mut v, "tracert");
    } else {
        add_text(&mut v, "mtr");
        add_text(&mut v, "tracepath");
        add_text(&mut v, "traceroute");
    }
    v
}

pub open spec fn trace_purpose() -> Seq<char> {
    "Shows the network path to the internet and where latency or loss is introduced."@
}

/// Traceroute: `found` lists those of `trace_candidates(windows)` that are on
/// the path, in the same order; the first of them is the one used.
pub fn traceroute_report(tool: ToolRef, windows: bool, found: &Vec<String>) -> (r: CapabilityReport)
    ensures
        found@.len() == 0 ==> shaped(
            r,
            "traceroute"@,
            "Traceroute"@,
            trace_purpose(),
            Tier::Optional,
            CapabilityStatus::Missing,
            Some(tool.command@),
            "None of "@ + join(trace_candidates_spec(windows), ", "@) + " were found on PATH."@,
            seq!["The Path panel on the Connectivity page"@],
            Some(tool.remedy@),
        ),
        found@.len() > 0 ==> shaped(
            r,
            "traceroute"@,
            "Traceroute"@,
            trace_purpose(),
            Tier::Optional,
            CapabilityStatus::Working,
            Some(found@[0]@),
            "Available: "@ + join(strings_view(found@), ", "@) + ". Using "@ + found@[0]@ + "."@,
            seq![],
            None,
        ),
{
    let purpose = "Shows the network path to the internet and where latency or loss is introduced.";
    if found.len() == 0 {
        let candidates = trace_candidates(windows);
        let mut detail = owned("None of ");
        let j = join_strings(&candidates, ", ");
        push_str(&mut detail, j.as_str());
        push_str(&mut detail, " were found on PATH.");
        let mut affects = nothing();
        add_text(&mut affects, "The Path panel on the Connectivity page");
        assert(strings_view(affects@) == seq!["The Path panel on the Connectivity page"@]);
        return build(
            "traceroute",
            "Traceroute",
            purpose,
            Tier::Optional,
            CapabilityStatus::Missing,
            Some(tool.command),
            detail,
            affects,
            Some(tool.remedy),
        );
    }
    let first = found[0].as_str();
    let mut detail = owned("Available: ");
    let j = join_strings(found, ", ");
    push_str(&mut detail, j.as_str());
    push_str(&mut detail, ". Using ");
    push_str(&mut detail, first);
    push_str(&mut detail, ".");
    build("traceroute", "Traceroute", purpose, Tier::Optional, CapabilityStatus::Working, Some(first), detail, nothing(), None)
}

pub open spec fn wifi_purpose() -> Seq<char> {
    "Reports signal strength, channel, and how congested your Wi-Fi channel is."@
}

pub open spec fn wifi_affects() -> Seq<Seq<char>> {
    seq![
        "Signal strength, channel and link rate"@,
        "Channel congestion analysis and the channel recommendation"@,
        "The list of neighbouring access points"@,
    ]
}

fn wifi_affects_list() -> (v: Vec<String>)
    ensures
        strings_view(v@) == wifi_affects(),
{
    let mut v = nothing();
    add_text(&mut v, "Signal strength, channel and link rate");
    add_text(&mut v, "Channel congestion analysis and the channel recommendation");
    add_text(&mut v, "The list of neighbouring access points");
    v
}

/// The Wi-Fi survey: `found` when its tool is on the path; `survey_ok` when a
/// survey produced data, `networks` how many networks it saw, and
/// `survey_detail` what it said when it produced none.
pub fn wifi_report(
    tool: ToolRef,
    found: bool,
    survey_ok: bool,
    networks: usize,
    survey_detail: Option<String>,
) -> (r: CapabilityReport)
    ensures
        !found ==> shaped(
            r,
            "wifi"@,
            "Wi-Fi survey"@,
            wifi_purpose(),
            Tier::Optional,
            CapabilityStatus::Missing,
            Some(tool.command@),
            "`"@ + tool.command@ + "` was not found on PATH."@,
            wifi_affects(),
            Some(tool.remedy@),
        ),
        found && survey_ok ==> shaped(
            r,
            "wifi"@,
            "Wi-Fi survey"@,
            wifi_purpose(),
            Tier::Optional,
            CapabilityStatus::Working,
            Some(tool.command@),
            "Working \u{2014} "@ + plural_spec(networks as nat, "network"@) + " visible."@,
            seq![],
            None,
        ),
        found && !survey_ok ==> shaped(
            r,
            "wifi"@,
            "Wi-Fi survey"@,
            wifi_purpose(),
            Tier::Optional,
            CapabilityStatus::Degraded,
            Some(tool.command@),
            match survey_detail {
                Some(d) => d@,
                None => "The Wi-Fi survey returned no data."@,
            },
            wifi_affects(),
            Some(tool.remedy@),
        ),
{
    let purpose = "Reports signal strength, channel, and how congested your Wi-Fi channel is.";
    if !found {
        let mut detail = owned("`");
        push_str(&mut detail, tool.command);
        push_str(&mut detail, "` was not found on PATH.");
        return build(
            "wifi",
            "Wi-Fi survey",
            purpose,
            Tier::Optional,
            CapabilityStatus::Missing,
            Some(tool.command),
            detail,
            wifi_affects_list(),
            Some(tool.remedy),
        );
    }
    if survey_ok {
        let mut detail = owned("Working \u{2014} ");
        let p = plural(networks, "network");
        push_str(&mut detail, p.as_str());
        push_str(&mut detail, " visible.");
        return build("wifi", "Wi-Fi survey", purpose, Tier::Optional, CapabilityStatus::Working, Some(tool.command), detail, nothing(), None);
    }
    let detail = match survey_detail {
        Some(d) => d,
        None => owned("The Wi-Fi survey returned no data."),
    };
    build(
        "wifi",
        "Wi-Fi survey",
        purpose,
        Tier::Optional,
        CapabilityStatus::Degraded,
        Some(tool.command),
        detail,
        wifi_affects_list(),
        Some(tool.remedy),
    )
}

pub open spec fn netbios_purpose() -> Seq<char> {
    "Reads machine names and workgroups from Windows PCs, Samba servers and NAS devices."@
}

/// NetBIOS needs only UDP: `failure` holds why no socket could be opened, if none could.
pub fn netbios_report(failure: Option<String>) -> (r: CapabilityReport)
    ensures
        failure is None ==> shaped(
            r,
            "netbios"@,
            "NetBIOS name lookup"@,
            netbios_purpose(),
            Tier::Optional,
            CapabilityStatus::Working,
            None,
            "UDP socket available. Built in \u{2014} no `nmblookup` or Samba tools required."@,
            seq![],
            None,
        ),
        failure matches Some(e) ==> shaped(
            r,
            "netbios"@,
            "NetBIOS name lookup"@,
            netbios_purpose(),
            Tier::Optional,
            CapabilityStatus::Missing,
            None,
            "Could not open a UDP socket: "@ + e@,
            seq!["Windows and NAS machine names"@],
            Some("Allow this application to open UDP sockets."@),
        ),
{
    let purpose = "Reads machine names and workgroups from Windows PCs, Samba servers and NAS devices.";
    match failure {
        None => build(
            "netbios",
            "NetBIOS name lookup",
            purpose,
            Tier::Optional,
            CapabilityStatus::Working,
            None,
            owned("UDP socket available. Built in \u{2014} no `nmblookup` or Samba tools required."),
            nothing(),
            None,
        ),
        Some(e) => {
            let mut detail = owned("Could not open a UDP socket: ");
            push_str(&mut detail, e.as_str());
            let mut affects = nothing();
            add_text(&mut affects, "Windows and NAS machine names");
            assert(strings_view(affects@) == seq!["Windows and NAS machine names"@]);
            build(
                "netbios",
                "NetBIOS name lookup",
                purpose,
                Tier::Optional,
                CapabilityStatus::Missing,
                None,
                detail,
                affects,
                Some("Allow this application to open UDP sockets."),
            )
        },
    }
}

/// The first ten bytes of a table's generation stamp, in characters; `None`
/// when the tenth byte falls inside a character.
pub open spec fn stamp_prefix(g: Seq<char>) -> Option<Seq<char>> {
    if bytes_of(g) <= 10 {
        Some(g)
    } else {
        match cut_at(g, 10, 0) {
            Some(k) => Some(g.take(k)),
            None => None,
        }
    }
}

/// What the vendor table's report says of it when it has prefixes.
pub open spec fn oui_detail(prefixes: nat, g: Seq<char>) -> Seq<char> {
    dec(prefixes) + " IEEE prefixes loaded"@ + (if g.len() == 0 {
        Seq::<char>::empty()
    } else {
        " (generated "@ + stamp_prefix(g)->0 + ")"@
    }) + ". Bundled with the app \u{2014} works offline."@
}

/// The bundled vendor table. A stamp whose tenth byte falls inside a
/// character cannot be cut there, so such a stamp is not accepted.
pub fn oui_report(info: &OuiTableInfo) -> (r: CapabilityReport)
    requires
        info.prefixes == 0 || info.generated_at@.len() == 0 || stamp_prefix(info.generated_at@) is Some,
    ensures
        info.prefixes == 0 ==> shaped(
            r,
            "oui"@,
            "Hardware vendor database"@,
            "Translates MAC addresses into manufacturer names."@,
            Tier::Optional,
            CapabilityStatus::Missing,
            None,
            "The bundled IEEE OUI table failed to load."@,
            seq!["Vendor names for discovered devices"@],
            Some("This indicates a corrupt installation \u{2014} reinstall the application."@),
        ),
        info.prefixes > 0 ==> shaped(
            r,
            "oui"@,
            "Hardware vendor database"@,
            "Translates MAC addresses into manufacturer names."@,
            Tier::Optional,
            CapabilityStatus::Working,
            None,
            oui_detail(info.prefixes as nat, info.generated_at@),
            seq![],
            None,
        ),
{
    let purpose = "Translates MAC addresses into manufacturer names.";
    if info.prefixes == 0 {
        let mut affects = nothing();
        add_text(&mut affects, "Vendor names for discovered devices");
        assert(strings_view(affects@) == seq!["Vendor names for discovered devices"@]);
        return build(
            "oui",
            "Hardware vendor database",
            purpose,
            Tier::Optional,
            CapabilityStatus::Missing,
            None,
            owned("The bundled IEEE OUI table failed to load."),
            affects,
            Some("This indicates a corrupt installation \u{2014} reinstall the application."),
        );
    }
    let mut detail = String::new();
    push_dec(&mut detail, info.prefixes as u64);
    push_str(&mut detail, " IEEE prefixes loaded");
    let ghost head = detail@;
    let g = chars_of(info.generated_at.as_str());
    if g.len() > 0 {
        let n = byte_len(&g);
        let stamp = if n <= 10 {
            copy_chars(&g)
        } else {
            match cut_bytes(&g, 10) {
                Some(k) => slice_chars(&g, 0, k),
                None => Vec::new(),
            }
        };
        assert(stamp@ == stamp_prefix(g@)->0);
        push_str(&mut detail, " (generated ");
        let st = string_of(&stamp);
        push_str(&mut detail, st.as_str());
        push_str(&mut detail, ")");
    }
    push_str(&mut detail, ". Bundled with the app \u{2014} works offline.");
    assert(detail@ == oui_detail(info.prefixes as nat, info.generated_at@));
    build("oui", "Hardware vendor database", purpose, Tier::Optional, CapabilityStatus::Working, None, detail, nothing(), None)
}

/// The vendor table's report, or nothing when its stamp's tenth byte falls
/// inside a character and so cannot be cut there.
pub fn try_oui_report(info: &OuiTableInfo) -> (r: Option<CapabilityReport>)
    ensures
        r is None <==> !(info.prefixes == 0 || info.generated_at@.len() == 0 || stamp_prefix(info.generated_at@) is Some),
        r matches Some(c) ==> (info.prefixes == 0 ==> c.status == CapabilityStatus::Missing) && (info.prefixes > 0
            ==> c.detail@ == oui_detail(info.prefixes as nat, info.generated_at@)),
{
    let g = chars_of(info.generated_at.as_str());
    let cuttable = if info.prefixes == 0 || g.len() == 0 {
        true
    } else if byte_len(&g) <= 10 {
        true
    } else {
        match cut_bytes(&g, 10) {
            Some(_) => true,
            None => false,
        }
    };
    if cuttable {
        Some(oui_report(info))
    } else {
        None
    }
}

} // verus!
