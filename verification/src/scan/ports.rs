//! TCP connect scanning: what each probe's outcome adds to the result.
//!
//! A full connect, not a half-open SYN scan, so every hit is unambiguous:
//! the service really accepted a connection. The connecting runs outside the
//! library; the tally and the progress cadence are decided here.
use crate::netutil::{service_name, service_of};
use crate::text::owned;
use crate::types::PortInfo;
use vstd::prelude::*;

verus! {

broadcast use vstd::seq_lib::group_to_multiset_ensures;

#[derive(Debug, Clone, Copy, PartialEq, Eq, Structural)]
pub enum ProbeOutcome {
    Open,
    /// The host actively refused: it is demonstrably up even if it ignores ICMP.
    Refused,
    Filtered,
}

/// Open ports per host, and the hosts that refused a connection.
pub struct PortScanResult {
    pub open: Vec<(u32, Vec<PortInfo>)>,
    pub refused_hosts: Vec<u32>,
}

/// Progress is reported at a coarse grain: every hundred probes, and at the end.
pub fn report_due(seen: u64, last_reported: u64, total: u64) -> (b: bool)
    ensures
        b == ((seen >= last_reported && seen - last_reported >= 100) || seen == total),
{
    seen.saturating_sub(last_reported) >= 100 || seen == total
}

/// The ports found open on a host, in probe order.
pub open spec fn open_on(results: Seq<(u32, u16, ProbeOutcome)>, ip: u32) -> Seq<u16>
    decreases results.len(),
{
    if results.len() == 0 {
        seq![]
    } else {
        let r = results.last();
        if r.0 == ip && r.2 == ProbeOutcome::Open {
            open_on(results.drop_last(), ip).push(r.1)
        } else {
            open_on(results.drop_last(), ip)
        }
    }
}

/// Some probe of the host was refused.
pub open spec fn refused_by(results: Seq<(u32, u16, ProbeOutcome)>, ip: u32) -> bool {
    exists|k: int| 0 <= k < results.len() && (#[trigger] results[k]).0 == ip && results[k].2 == ProbeOutcome::Refused
}

pub open spec fn port_numbers(ps: Seq<PortInfo>) -> Seq<u16> {
    ps.map_values(|p: PortInfo| p.port)
}

/// What an open port records: TCP, its well-known service, no banner yet.
pub open spec fn port_entry_ok(p: PortInfo) -> bool {
    &&& p.protocol@ == "tcp"@
    &&& crate::scan::wifi::opt_text_view(p.service) == (match service_of(p.port) {
        Some(s) => Some(s@),
        None => None,
    })
    &&& p.banner is None
}

pub open spec fn ascending(ps: Seq<u16>) -> bool {
    forall|a: int, b: int| 0 <= a < b < ps.len() ==> ps[a] <= ps[b]
}

/// The tally of the probes: each host with an open port once, holding
/// exactly its open ports in ascending order; each refusing host once.
pub open spec fn tally_ok(results: Seq<(u32, u16, ProbeOutcome)>, r: PortScanResult) -> bool {
    &&& forall|a: int, b: int| 0 <= a < b < r.open@.len() ==> r.open@[a].0 != r.open@[b].0
    &&& forall|ip: u32| (exists|k: int| 0 <= k < r.open@.len() && #[trigger] r.open@[k].0 == ip) <==> open_on(results, ip).len() > 0
    &&& forall|k: int|
        0 <= k < r.open@.len() ==> {
            let e = #[trigger] r.open@[k];
            &&& ascending(port_numbers(e.1@))
            &&& port_numbers(e.1@).to_multiset() == open_on(results, e.0).to_multiset()
            &&& forall|j: int| 0 <= j < e.1@.len() ==> port_entry_ok(#[trigger] e.1@[j])
        }
    &&& forall|a: int, b: int| 0 <= a < b < r.refused_hosts@.len() ==> r.refused_hosts@[a] != r.refused_hosts@[b]
    &&& forall|ip: u32| r.refused_hosts@.contains(ip) <==> refused_by(results, ip)
}

fn find_host(open: &Vec<(u32, Vec<PortInfo>)>, ip: u32) -> (r: Option<usize>)
    ensures
        match r {
            Some(k) => k < open@.len() && open@[k as int].0 == ip,
            None => forall|k: int| 0 <= k < open@.len() ==> open@[k].0 != ip,
        },
{
    let mut k: usize = 0;
    while k < open.len()
        invariant
            k <= open@.len(),
            forall|j: int| 0 <= j < k ==> open@[j].0 != ip,
        decreases open.len() - k,
    {
        if open[k].0 == ip {
            return Some(k);
        }
        k += 1;
    }
    None
}

fn port_entry(port: u16) -> (p: PortInfo)
    ensures
        p.port == port,
        port_entry_ok(p),
{
    PortInfo {
        port,
        protocol: owned("tcp"),
        service: match service_name(port) {
            Some(s) => Some(owned(s)),
            None => None,
        },
        banner: None,
    }
}

/// Adds a port to an ascending list, after any equal ones.
fn insert_port(ps: &mut Vec<PortInfo>, p: PortInfo)
    requires
        ascending(port_numbers(old(ps)@)),
    ensures
        ascending(port_numbers(final(ps)@)),
        exists|j: int| 0 <= j <= old(ps)@.len() && final(ps)@ == old(ps)@.insert(j, p),
{
    let mut j: usize = 0;
    while j < ps.len() && ps[j].port <= p.port
        invariant
            j <= ps@.len(),
            forall|k: int| 0 <= k < j ==> ps@[k].port <= p.port,
        decreases ps.len() - j,
    {
        j += 1;
    }
    let ghost before = ps@;
    ps.insert(j, p);
    proof {
        let nb = port_numbers(before);
        let na = port_numbers(ps@);
        assert(na =~= nb.insert(j as int, p.port));
        assert forall|a: int, b: int| 0 <= a < b < na.len() implies na[a] <= na[b] by {
            if b < j {
            } else if b == j {
                assert(na[a] == nb[a]);
            } else if a < j {
                assert(na[a] == nb[a] && na[b] == nb[b - 1]);
            } else if a == j {
                assert(na[b] == nb[b - 1]);
                if b - 1 > j {
                    assert(nb[j as int] <= nb[b - 1]);
                }
            } else {
                assert(na[a] == nb[a - 1] && na[b] == nb[b - 1]);
            }
        }
    }
}

/// Folds the probes' outcomes into the scan's result.
pub fn tally(results: &Vec<(u32, u16, ProbeOutcome)>) -> (r: PortScanResult)
    ensures
        tally_ok(results@, r),
{
    let mut r = PortScanResult { open: Vec::new(), refused_hosts: Vec::new() };
    let mut i: usize = 0;
    while i < results.len()
        invariant
            i <= results@.len(),
            tally_ok(results@.take(i as int), r),
        decreases results.len() - i,
    {
        let ghost pre = results@.take(i as int);
        let ghost post = results@.take(i + 1);
        proof {
            assert(post.drop_last() =~= pre);
            assert(post.last() == results@[i as int]);
        }
        let (ip, port, outcome) = results[i];
        assert(post =~= pre.push((ip, port, outcome)));
        match outcome {
            ProbeOutcome::Open => {
                let ghost r0 = r;
                let p = port_entry(port);
                match find_host(&r.open, ip) {
                    Some(k) => {
                        let mut entry = r.open.remove(k);
                        insert_port(&mut entry.1, p);
                        r.open.insert(k, entry);
                        proof {
                            lemma_open_added(pre, post, r0, r, k as int, ip, port, p);
                        }
                    },
                    None => {
                        let mut list: Vec<PortInfo> = Vec::new();
                        list.push(p);
                        r.open.push((ip, list));
                        proof {
                            lemma_open_new(pre, post, r0, r, ip, port, p);
                        }
                    },
                }
            },
            ProbeOutcome::Refused => {
                let ghost r0 = r;
                let mut known = false;
                let mut k: usize = 0;
                while k < r.refused_hosts.len()
                    invariant
                        k <= r.refused_hosts@.len(),
                        known == exists|j: int| 0 <= j < k && r.refused_hosts@[j] == ip,
                    decreases r.refused_hosts.len() - k,
                {
                    if r.refused_hosts[k] == ip {
                        known = true;
                    }
                    k += 1;
                }
                if !known {
                    r.refused_hosts.push(ip);
                }
                proof {
                    lemma_refused_added(pre, post, r0, r, ip, port);
                }
            },
            ProbeOutcome::Filtered => {
                proof {
                    lemma_filtered(pre, post, r, ip, port);
                }
            },
        }
        i += 1;
    }
    assert(results@.take(results@.len() as int) =~= results@);
    r
}

proof fn lemma_open_on_other(pre: Seq<(u32, u16, ProbeOutcome)>, x: (u32, u16, ProbeOutcome), ip: u32)
    ensures
        open_on(pre.push(x), ip) == (if x.0 == ip && x.2 == ProbeOutcome::Open {
            open_on(pre, ip).push(x.1)
        } else {
            open_on(pre, ip)
        }),
{
    assert(pre.push(x).drop_last() =~= pre);
}

proof fn lemma_refused_push(pre: Seq<(u32, u16, ProbeOutcome)>, x: (u32, u16, ProbeOutcome), ip: u32)
    ensures
        refused_by(pre.push(x), ip) == (refused_by(pre, ip) || (x.0 == ip && x.2 == ProbeOutcome::Refused)),
{
    let s = pre.push(x);
    if refused_by(s, ip) {
        let k = choose|k: int| 0 <= k < s.len() && (#[trigger] s[k]).0 == ip && s[k].2 == ProbeOutcome::Refused;
        if k < pre.len() {
            assert(pre[k] == s[k]);
        }
    }
    if refused_by(pre, ip) {
        let k = choose|k: int| 0 <= k < pre.len() && (#[trigger] pre[k]).0 == ip && pre[k].2 == ProbeOutcome::Refused;
        assert(s[k] == pre[k]);
    }
    if x.0 == ip && x.2 == ProbeOutcome::Refused {
        assert(s[pre.len() as int] == x);
    }
}

proof fn lemma_filtered(
    pre: Seq<(u32, u16, ProbeOutcome)>,
    post: Seq<(u32, u16, ProbeOutcome)>,
    r: PortScanResult,
    ip: u32,
    port: u16,
)
    requires
        post == pre.push((ip, port, ProbeOutcome::Filtered)),
        tally_ok(pre, r),
    ensures
        tally_ok(post, r),
{
    assert forall|y: u32| open_on(post, y) == open_on(pre, y) by {
        lemma_open_on_other(pre, (ip, port, ProbeOutcome::Filtered), y);
    }
    assert forall|y: u32| refused_by(post, y) == refused_by(pre, y) by {
        lemma_refused_push(pre, (ip, port, ProbeOutcome::Filtered), y);
    }
}

proof fn lemma_refused_added(
    pre: Seq<(u32, u16, ProbeOutcome)>,
    post: Seq<(u32, u16, ProbeOutcome)>,
    r0: PortScanResult,
    r: PortScanResult,
    ip: u32,
    port: u16,
)
    requires
        post == pre.push((ip, port, ProbeOutcome::Refused)),
        tally_ok(pre, r0),
        r.open == r0.open,
        r.refused_hosts@ == (if r0.refused_hosts@.contains(ip) {
            r0.refused_hosts@
        } else {
            r0.refused_hosts@.push(ip)
        }),
    ensures
        tally_ok(post, r),
{
    assert forall|y: u32| open_on(post, y) == open_on(pre, y) by {
        lemma_open_on_other(pre, (ip, port, ProbeOutcome::Refused), y);
    }
    assert forall|y: u32| refused_by(post, y) == (refused_by(pre, y) || y == ip) by {
        lemma_refused_push(pre, (ip, port, ProbeOutcome::Refused), y);
    }
    if !r0.refused_hosts@.contains(ip) {
        let s = r.refused_hosts@;
        assert forall|a: int, b: int| 0 <= a < b < s.len() implies s[a] != s[b] by {
            if b == s.len() - 1 {
                assert(s[a] == r0.refused_hosts@[a]);
            }
        }
        assert forall|y: u32| s.contains(y) <==> (r0.refused_hosts@.contains(y) || y == ip) by {
            if s.contains(y) {
                let k = choose|k: int| 0 <= k < s.len() && s[k] == y;
                if k < r0.refused_hosts@.len() {
                    assert(r0.refused_hosts@[k] == y);
                }
            }
            if r0.refused_hosts@.contains(y) {
                let k = choose|k: int| 0 <= k < r0.refused_hosts@.len() && r0.refused_hosts@[k] == y;
                assert(s[k] == y);
            }
            if y == ip {
                assert(s[s.len() - 1] == y);
            }
        }
    }
}

proof fn lemma_open_new(
    pre: Seq<(u32, u16, ProbeOutcome)>,
    post: Seq<(u32, u16, ProbeOutcome)>,
    r0: PortScanResult,
    r: PortScanResult,
    ip: u32,
    port: u16,
    p: PortInfo,
)
    requires
        post == pre.push((ip, port, ProbeOutcome::Open)),
        tally_ok(pre, r0),
        forall|k: int| 0 <= k < r0.open@.len() ==> r0.open@[k].0 != ip,
        p.port == port,
        port_entry_ok(p),
        r.refused_hosts == r0.refused_hosts,
        r.open@.len() == r0.open@.len() + 1,
        forall|k: int| 0 <= k < r0.open@.len() ==> r.open@[k] == r0.open@[k],
        r.open@[r0.open@.len() as int].0 == ip,
        r.open@[r0.open@.len() as int].1@ == seq![p],
    ensures
        tally_ok(post, r),
{
    let x = (ip, port, ProbeOutcome::Open);
    assert forall|y: u32| open_on(post, y) == (if y == ip { open_on(pre, y).push(port) } else { open_on(pre, y) }) by {
        lemma_open_on_other(pre, x, y);
    }
    assert forall|y: u32| refused_by(post, y) == refused_by(pre, y) by {
        lemma_refused_push(pre, x, y);
    }
    assert(open_on(pre, ip).len() == 0) by {
        if open_on(pre, ip).len() > 0 {
            let k = choose|k: int| 0 <= k < r0.open@.len() && #[trigger] r0.open@[k].0 == ip;
        }
    }
    let n = r0.open@.len() as int;
    assert(port_numbers(seq![p]) =~= seq![port]);
    assert(open_on(post, ip) =~= seq![port]);
    assert forall|y: u32| (exists|k: int| 0 <= k < r.open@.len() && #[trigger] r.open@[k].0 == y) <==> open_on(post, y).len() > 0 by {
        if exists|k: int| 0 <= k < r.open@.len() && #[trigger] r.open@[k].0 == y {
            let k = choose|k: int| 0 <= k < r.open@.len() && #[trigger] r.open@[k].0 == y;
            if k < n {
                assert(r0.open@[k].0 == y);
            }
        }
        if open_on(post, y).len() > 0 && y != ip {
            let k = choose|k: int| 0 <= k < r0.open@.len() && #[trigger] r0.open@[k].0 == y;
            assert(r.open@[k].0 == y);
        }
        if y == ip {
            assert(r.open@[n].0 == y);
        }
    }
    assert forall|k: int| 0 <= k < r.open@.len() implies {
        let e = #[trigger] r.open@[k];
        &&& ascending(port_numbers(e.1@))
        &&& port_numbers(e.1@).to_multiset() == open_on(post, e.0).to_multiset()
        &&& forall|j: int| 0 <= j < e.1@.len() ==> port_entry_ok(#[trigger] e.1@[j])
    } by {
        if k < n {
            assert(r.open@[k] == r0.open@[k]);
        } else {
            assert(r.open@[k].1@ == seq![p]);
        }
    }
}

proof fn lemma_open_added(
    pre: Seq<(u32, u16, ProbeOutcome)>,
    post: Seq<(u32, u16, ProbeOutcome)>,
    r0: PortScanResult,
    r: PortScanResult,
    k0: int,
    ip: u32,
    port: u16,
    p: PortInfo,
)
    requires
        post == pre.push((ip, port, ProbeOutcome::Open)),
        tally_ok(pre, r0),
        0 <= k0 < r0.open@.len(),
        r0.open@[k0].0 == ip,
        p.port == port,
        port_entry_ok(p),
        r.refused_hosts == r0.refused_hosts,
        r.open@.len() == r0.open@.len(),
        forall|k: int| 0 <= k < r0.open@.len() && k != k0 ==> r.open@[k] == r0.open@[k],
        r.open@[k0].0 == ip,
        ascending(port_numbers(r.open@[k0].1@)),
        exists|j: int| 0 <= j <= r0.open@[k0].1@.len() && r.open@[k0].1@ == r0.open@[k0].1@.insert(j, p),
    ensures
        tally_ok(post, r),
{
    let x = (ip, port, ProbeOutcome::Open);
    assert forall|y: u32| open_on(post, y) == (if y == ip { open_on(pre, y).push(port) } else { open_on(pre, y) }) by {
        lemma_open_on_other(pre, x, y);
    }
    assert forall|y: u32| refused_by(post, y) == refused_by(pre, y) by {
        lemma_refused_push(pre, x, y);
    }
    let j = choose|j: int| 0 <= j <= r0.open@[k0].1@.len() && r.open@[k0].1@ == r0.open@[k0].1@.insert(j, p);
    let old_list = r0.open@[k0].1@;
    let new_list = r.open@[k0].1@;
    assert(port_numbers(new_list) =~= port_numbers(old_list).insert(j, port));
    vstd::seq_lib::to_multiset_insert(port_numbers(old_list), j, port);
    vstd::seq_lib::to_multiset_build(open_on(pre, ip), port);
    assert forall|a: int, b: int| 0 <= a < b < r.open@.len() implies r.open@[a].0 != r.open@[b].0 by {
        assert(r.open@[a].0 == r0.open@[a].0);
        assert(r.open@[b].0 == r0.open@[b].0);
    }
    assert forall|y: u32| (exists|k: int| 0 <= k < r.open@.len() && #[trigger] r.open@[k].0 == y) <==> open_on(post, y).len() > 0 by {
        if exists|k: int| 0 <= k < r.open@.len() && #[trigger] r.open@[k].0 == y {
            let k = choose|k: int| 0 <= k < r.open@.len() && #[trigger] r.open@[k].0 == y;
            assert(r0.open@[k].0 == y);
        }
        if open_on(post, y).len() > 0 && y != ip {
            let k = choose|k: int| 0 <= k < r0.open@.len() && #[trigger] r0.open@[k].0 == y;
            assert(r.open@[k].0 == y);
        }
        if y == ip {
            assert(r.open@[k0].0 == y);
        }
    }
    assert forall|k: int| 0 <= k < r.open@.len() implies {
        let e = #[trigger] r.open@[k];
        &&& ascending(port_numbers(e.1@))
        &&& port_numbers(e.1@).to_multiset() == open_on(post, e.0).to_multiset()
        &&& forall|i: int| 0 <= i < e.1@.len() ==> port_entry_ok(#[trigger] e.1@[i])
    } by {
        if k != k0 {
            assert(r.open@[k] == r0.open@[k]);
            assert(r0.open@[k].0 != ip);
        } else {
            assert forall|i: int| 0 <= i < new_list.len() implies port_entry_ok(#[trigger] new_list[i]) by {
                if i < j {
                    assert(new_list[i] == old_list[i]);
                } else if i > j {
                    assert(new_list[i] == old_list[i - 1]);
                }
            }
        }
    }
}

} // verus!
