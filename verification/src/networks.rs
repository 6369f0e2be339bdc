//! Separate scan histories per physical network.
//!
//! The subnet cannot identify a network: two buildings routinely both use
//! `192.168.0.0/24`. The gateway's MAC address can, so it is the primary key,
//! with SSID, subnet and resolvers as weaker signals for when no gateway MAC
//! is available.
use crate::netutil::{normalize_mac, normalize_mac_spec};
use crate::scan::wifi::opt_text_view;
use crate::text::{
    chars_of, copy_text, dec, dec_text, digit_char, hex_char_lower, is_text, less_text,
    lemma_text_less_total, lemma_text_less_trans, lower_seq, lowercase, owned, push_char,
    push_str, str_eq, strings_view, text_less,
};
use crate::types::{HostInfo, TargetSource};
use vstd::prelude::*;

verus! {

/* ------------------------------------------------------ sorted string sets */

/// Each element strictly before the next, in `str` order.
pub open spec fn strictly_sorted(s: Seq<Seq<char>>) -> bool {
    forall|i: int, j: int| 0 <= i < j < s.len() ==> text_less(s[i], s[j])
}

proof fn lemma_insert_sorted(s: Seq<Seq<char>>, k: int, y: Seq<char>)
    requires
        strictly_sorted(s),
        0 <= k <= s.len(),
        forall|j: int| 0 <= j < k ==> text_less(s[j], y),
        k < s.len() ==> text_less(y, s[k]),
    ensures
        strictly_sorted(s.insert(k, y)),
{
    let t = s.insert(k, y);
    assert forall|i: int, j: int| 0 <= i < j < t.len() implies text_less(t[i], t[j]) by {
        if j < k {
        } else if j == k {
        } else if i < k {
            assert(t[i] == s[i] && t[j] == s[j - 1]);
        } else if i == k {
            if k < j - 1 {
                lemma_text_less_trans(y, s[k], s[j - 1]);
            }
        } else {
        }
    }
}

/// The strings, sorted and without repeats (`sort` then `dedup`).
pub fn sorted_unique(v: &Vec<String>) -> (out: Vec<String>)
    ensures
        strictly_sorted(strings_view(out@)),
        forall|x: Seq<char>| strings_view(out@).contains(x) <==> strings_view(v@).contains(x),
{
    let mut out: Vec<String> = Vec::new();
    let mut i: usize = 0;
    while i < v.len()
        invariant
            i <= v@.len(),
            strictly_sorted(strings_view(out@)),
            forall|x: Seq<char>|
                strings_view(out@).contains(x) <==> strings_view(v@).take(i as int).contains(x),
        decreases v.len() - i,
    {
        let x = &v[i];
        let ghost vs = strings_view(v@);
        let ghost a = vs.take(i as int);
        let ghost b = vs.take(i + 1);
        proof {
            assert(b =~= a.push(x@));
            assert forall|y: Seq<char>| b.contains(y) <==> (a.contains(y) || y == x@) by {
                if b.contains(y) {
                    let w = choose|w: int| 0 <= w < b.len() && b[w] == y;
                    if w < i {
                        assert(a[w] == y);
                    }
                }
                if a.contains(y) {
                    let w = choose|w: int| 0 <= w < a.len() && a[w] == y;
                    assert(b[w] == y);
                }
                if y == x@ {
                    assert(b[i as int] == y);
                }
            }
        }
        let mut k: usize = 0;
        while k < out.len() && less_text(out[k].as_str(), x.as_str())
            invariant
                k <= out@.len(),
                forall|j: int| 0 <= j < k ==> text_less(strings_view(out@)[j], x@),
            decreases out.len() - k,
        {
            k += 1;
        }
        let ghost os = strings_view(out@);
        if k < out.len() && str_eq(out[k].as_str(), x.as_str()) {
            proof {
                assert(os[k as int] == x@);
                assert(os.contains(x@));
            }
        } else {
            proof {
                if k < os.len() {
                    lemma_text_less_total(os[k as int], x@);
                }
                lemma_insert_sorted(os, k as int, x@);
            }
            out.insert(k, copy_text(x));
            proof {
                assert(strings_view(out@) =~= os.insert(k as int, x@));
                assert forall|y: Seq<char>| strings_view(out@).contains(y) <==> (os.contains(y) || y == x@) by {
                    let ns = strings_view(out@);
                    if ns.contains(y) {
                        let w = choose|w: int| 0 <= w < ns.len() && ns[w] == y;
                        if w < k {
                            assert(os[w] == y);
                        } else if w > k {
                            assert(os[w - 1] == y);
                        }
                    }
                    if os.contains(y) {
                        let w = choose|w: int| 0 <= w < os.len() && os[w] == y;
                        if w < k {
                            assert(ns[w] == y);
                        } else {
                            assert(ns[w + 1] == y);
                        }
                    }
                    if y == x@ {
                        assert(ns[k as int] == y);
                    }
                }
            }
        }
        assert forall|y: Seq<char>| strings_view(out@).contains(y) <==> b.contains(y) by {
            assert(os.contains(y) <==> a.contains(y));
            assert(b.contains(y) <==> (a.contains(y) || y == x@));
        }
        i += 1;
    }
    assert(strings_view(v@).take(v@.len() as int) =~= strings_view(v@));
    out
}

/* ------------------------------------------------------------ fingerprints */

/// Observable facts that together identify a physical network.
#[derive(Debug, Clone)]
pub struct NetworkFingerprint {
    /// The gateway's hardware address: the strongest signal by far.
    pub gateway_mac: Option<String>,
    pub gateway_ip: Option<String>,
    /// Local subnets in canonical form, e.g. `192.168.0.0/24`.
    pub subnets: Vec<String>,
    /// SSID when on Wi-Fi; distinguishes two sites that share a subnet.
    pub ssid: Option<String>,
    pub dns_servers: Vec<String>,
}

impl Default for NetworkFingerprint {
    fn default() -> (f: Self)
        ensures
            f.gateway_mac is None,
            f.gateway_ip is None,
            f.subnets@.len() == 0,
            f.ssid is None,
            f.dns_servers@.len() == 0,
    {
        NetworkFingerprint {
            gateway_mac: None,
            gateway_ip: None,
            subnets: Vec::new(),
            ssid: None,
            dns_servers: Vec::new(),
        }
    }
}

/// The CIDRs of the locally attached targets, in order.
pub open spec fn local_cidrs(ts: Seq<crate::types::ScanTarget>) -> Seq<Seq<char>>
    decreases ts.len(),
{
    if ts.len() == 0 {
        seq![]
    } else if ts.last().source == TargetSource::Local {
        local_cidrs(ts.drop_last()).push(ts.last().cidr@)
    } else {
        local_cidrs(ts.drop_last())
    }
}

/// An SSID counts only when it names something: not empty, not `(hidden)`.
pub open spec fn usable_ssid(ssid: Option<Seq<char>>) -> Option<Seq<char>> {
    match ssid {
        Some(s) => if s.len() > 0 && s != "(hidden)"@ {
            Some(s)
        } else {
            None
        },
        None => None,
    }
}

impl NetworkFingerprint {
    /// The fingerprint of a host's view of its network: the local subnets and
    /// resolvers as sorted sets, the gateway, its normalised MAC, and the SSID.
    pub fn from_host(host: &HostInfo, gateway_mac: Option<String>, ssid: Option<String>) -> (f: Self)
        ensures
            strictly_sorted(strings_view(f.subnets@)),
            forall|x: Seq<char>|
                strings_view(f.subnets@).contains(x) <==> local_cidrs(host.scan_targets@).contains(x),
            strictly_sorted(strings_view(f.dns_servers@)),
            forall|x: Seq<char>|
                strings_view(f.dns_servers@).contains(x) <==> strings_view(host.dns.servers@).contains(x),
            opt_text_view(f.gateway_mac) == (match gateway_mac {
                Some(m) => Some(normalize_mac_spec(m@)),
                None => None,
            }),
            opt_text_view(f.gateway_ip) == (match host.gateway {
                Some(g) => Some(g.ip@),
                None => None,
            }),
            opt_text_view(f.ssid) == usable_ssid(opt_text_view(ssid)),
    {
        let mut cidrs: Vec<String> = Vec::new();
        let mut i: usize = 0;
        while i < host.scan_targets.len()
            invariant
                i <= host.scan_targets@.len(),
                strings_view(cidrs@) == local_cidrs(host.scan_targets@.take(i as int)),
            decreases host.scan_targets.len() - i,
        {
            proof {
                assert(host.scan_targets@.take(i + 1).drop_last() =~= host.scan_targets@.take(i as int));
            }
            if host.scan_targets[i].source == TargetSource::Local {
                let ghost before = cidrs@;
                cidrs.push(copy_text(&host.scan_targets[i].cidr));
                assert(strings_view(cidrs@) =~= strings_view(before).push(host.scan_targets@[i as int].cidr@));
            }
            i += 1;
        }
        assert(host.scan_targets@.take(host.scan_targets@.len() as int) =~= host.scan_targets@);
        let subnets = sorted_unique(&cidrs);
        let dns_servers = sorted_unique(&host.dns.servers);
        let mac = match gateway_mac {
            Some(m) => Some(normalize_mac(m.as_str())),
            None => None,
        };
        let gateway_ip = match &host.gateway {
            Some(g) => Some(copy_text(&g.ip)),
            None => None,
        };
        let kept = match ssid {
            Some(s) => {
                let c = chars_of(s.as_str());
                if c.len() > 0 && !is_text(&c, "(hidden)") {
                    Some(s)
                } else {
                    None
                }
            },
            None => None,
        };
        NetworkFingerprint { gateway_mac: mac, gateway_ip, subnets, ssid: kept, dns_servers }
    }

    /// A short human description, used when naming a newly detected network:
    /// the SSID, else the first subnet, else a placeholder.
    pub open spec fn describe_spec(self) -> Seq<char> {
        match self.ssid {
            Some(s) => s@,
            None => if self.subnets@.len() > 0 {
                self.subnets@[0]@
            } else {
                "Unnamed network"@
            },
        }
    }

    pub fn describe(&self) -> (d: String)
        ensures
            d@ == self.describe_spec(),
    {
        match &self.ssid {
            Some(s) => copy_text(s),
            None => if self.subnets.len() > 0 {
                copy_text(&self.subnets[0])
            } else {
                owned("Unnamed network")
            },
        }
    }
}

/* --------------------------------------------------------------- matching */

/// How confident a match is; better matches come later.
#[derive(Debug, Clone, Copy, PartialEq, Eq, Structural, PartialOrd, Ord, Hash)]
pub enum MatchStrength {
    /// Nothing in common.
    Unmatched,
    /// Subnet alone. Deliberately not enough to switch on: this is precisely
    /// the case where two different sites look identical.
    Weak,
    /// SSID, or subnet plus matching resolvers. Good enough to act on.
    Strong,
    /// Gateway MAC. A specific piece of hardware; treat as certain.
    Definitive,
}

/// The order of strengths, weakest first.
pub open spec fn rank(s: MatchStrength) -> int {
    match s {
        MatchStrength::Unmatched => 0,
        MatchStrength::Weak => 1,
        MatchStrength::Strong => 2,
        MatchStrength::Definitive => 3,
    }
}

pub fn rank_of(s: MatchStrength) -> (r: u8)
    ensures
        r == rank(s),
{
    match s {
        MatchStrength::Unmatched => 0,
        MatchStrength::Weak => 1,
        MatchStrength::Strong => 2,
        MatchStrength::Definitive => 3,
    }
}

/// Some element of `a` occurs in `b`.
pub open spec fn shares(a: Seq<Seq<char>>, b: Seq<Seq<char>>) -> bool {
    exists|i: int| 0 <= i < a.len() && #[trigger] b.contains(a[i])
}

fn any_shared(a: &Vec<String>, b: &Vec<String>) -> (r: bool)
    ensures
        r == shares(strings_view(a@), strings_view(b@)),
{
    let ghost av = strings_view(a@);
    let ghost bv = strings_view(b@);
    let mut i: usize = 0;
    while i < a.len()
        invariant
            i <= a@.len(),
            av == strings_view(a@),
            bv == strings_view(b@),
            forall|k: int| 0 <= k < i ==> !#[trigger] bv.contains(av[k]),
        decreases a.len() - i,
    {
        let mut j: usize = 0;
        while j < b.len()
            invariant
                j <= b@.len(),
                i < a@.len(),
                av == strings_view(a@),
                bv == strings_view(b@),
                forall|m: int| 0 <= m < j ==> bv[m] != av[i as int],
            decreases b.len() - j,
        {
            if str_eq(a[i].as_str(), b[j].as_str()) {
                assert(bv[j as int] == av[i as int]);
                assert(bv.contains(av[i as int]));
                return true;
            }
            j += 1;
        }
        assert(!bv.contains(av[i as int]));
        i += 1;
    }
    false
}

/// How strongly an observed fingerprint matches a stored one. When both
/// gateway MACs are known they alone decide: equal (ignoring ASCII case) is
/// definitive, different is definitively another network, whatever else
/// agrees.
pub open spec fn strength_spec(stored: NetworkFingerprint, observed: NetworkFingerprint) -> MatchStrength {
    if stored.gateway_mac is Some && observed.gateway_mac is Some {
        if lower_seq(stored.gateway_mac.unwrap()@) == lower_seq(observed.gateway_mac.unwrap()@) {
            MatchStrength::Definitive
        } else {
            MatchStrength::Unmatched
        }
    } else {
        let subnet = shares(strings_view(stored.subnets@), strings_view(observed.subnets@));
        let dns = shares(strings_view(stored.dns_servers@), strings_view(observed.dns_servers@));
        let ssid = stored.ssid is Some && observed.ssid is Some && stored.ssid.unwrap()@
            == observed.ssid.unwrap()@;
        if ssid {
            MatchStrength::Strong
        } else if subnet && dns {
            MatchStrength::Strong
        } else if subnet {
            MatchStrength::Weak
        } else {
            MatchStrength::Unmatched
        }
    }
}

/// Compares an observed fingerprint against a stored one.
pub fn match_strength(stored: &NetworkFingerprint, observed: &NetworkFingerprint) -> (m: MatchStrength)
    ensures
        m == strength_spec(*stored, *observed),
{
    match (&stored.gateway_mac, &observed.gateway_mac) {
        (Some(a), Some(b)) => {
            let x = chars_of(a.as_str());
            let y = chars_of(b.as_str());
            let lx = lowercase(&x);
            let ly = lowercase(&y);
            if crate::text::chars_eq(&lx, &ly) {
                return MatchStrength::Definitive;
            }
            return MatchStrength::Unmatched;
        },
        _ => {},
    }
    let subnet = any_shared(&stored.subnets, &observed.subnets);
    let ssid = match (&stored.ssid, &observed.ssid) {
        (Some(a), Some(b)) => str_eq(a.as_str(), b.as_str()),
        _ => false,
    };
    let dns = any_shared(&stored.dns_servers, &observed.dns_servers);
    if ssid && subnet {
        return MatchStrength::Strong;
    }
    if ssid {
        return MatchStrength::Strong;
    }
    if subnet && dns {
        return MatchStrength::Strong;
    }
    if subnet {
        return MatchStrength::Weak;
    }
    MatchStrength::Unmatched
}

/* --------------------------------------------------------------- profiles */

#[derive(Debug, Clone)]
pub struct NetworkProfile {
    pub id: String,
    pub name: String,
    pub fingerprint: NetworkFingerprint,
    pub created_at: String,
    pub last_seen_at: Option<String>,
    pub scan_count: usize,
}

/// Five decimal digits of `v`, zero-padded (`{:05}`).
pub open spec fn pad5(v: int) -> Seq<char> {
    seq![
        digit_char(v / 10000),
        digit_char((v / 1000) % 10),
        digit_char((v / 100) % 10),
        digit_char((v / 10) % 10),
        digit_char(v % 10),
    ]
}

/// Four lowercase hex digits of `v`, zero-padded (`{:04x}`).
pub open spec fn hex4(v: int) -> Seq<char> {
    seq![
        hex_char_lower(v / 4096),
        hex_char_lower((v / 256) % 16),
        hex_char_lower((v / 16) % 16),
        hex_char_lower(v % 16),
    ]
}

/// A time-ordered, filesystem-safe id: `net-STAMP-NNNNN-XXXX`, the
/// sub-second nanoseconds modulo 100000 and sixteen bits of a value that
/// differs between calls.
pub open spec fn id_text(stamp: Seq<char>, nanos: u32, sequence: u64) -> Seq<char> {
    "net-"@ + stamp + "-"@ + pad5(nanos as int % 100000) + "-"@ + hex4(sequence as int % 65536)
}

fn decimal_digit(d: u32) -> (c: char)
    requires
        d < 10,
    ensures
        c == digit_char(d as int),
{
    ((d as u8) + 48) as char
}

fn lower_hex_digit(d: u64) -> (c: char)
    requires
        d < 16,
    ensures
        c == hex_char_lower(d as int),
{
    if d < 10 {
        ((d as u8) + 48) as char
    } else {
        ((d as u8) + 87) as char
    }
}

/// Builds a network id from a time stamp, the clock's nanoseconds and a
/// sequence value.
pub fn format_id(stamp: &str, nanos: u32, sequence: u64) -> (id: String)
    ensures
        id@ == id_text(stamp@, nanos, sequence),
{
    let mut id = owned("net-");
    push_str(&mut id, stamp);
    push_char(&mut id, '-');
    let n = nanos % 100000;
    push_char(&mut id, decimal_digit(n / 10000));
    push_char(&mut id, decimal_digit((n / 1000) % 10));
    push_char(&mut id, decimal_digit((n / 100) % 10));
    push_char(&mut id, decimal_digit((n / 10) % 10));
    push_char(&mut id, decimal_digit(n % 10));
    push_char(&mut id, '-');
    let q = sequence % 65536;
    push_char(&mut id, lower_hex_digit(q / 4096));
    push_char(&mut id, lower_hex_digit((q / 256) % 16));
    push_char(&mut id, lower_hex_digit((q / 16) % 16));
    push_char(&mut id, lower_hex_digit(q % 16));
    proof {
        reveal_strlit("-");
        assert(id@ =~= id_text(stamp@, nanos, sequence));
    }
    id
}

/// A fresh id, from the clock and a per-call random value.
pub fn new_id() -> (id: String)
    ensures
        exists|stamp: Seq<char>, nanos: u32, sequence: u64| id@ == id_text(stamp, nanos, sequence),
{
    let stamp = crate::clock::utc_stamp();
    let nanos = crate::clock::subsec_nanos();
    let sequence = crate::clock::entropy();
    format_id(stamp.as_str(), nanos, sequence)
}

impl NetworkProfile {
    /// A new profile with a fresh id, created now, never yet seen or scanned.
    pub fn new(name: &str, fingerprint: NetworkFingerprint) -> (p: Self)
        ensures
            p.name@ == name@,
            p.fingerprint == fingerprint,
            p.last_seen_at is None,
            p.scan_count == 0,
            exists|stamp: Seq<char>, nanos: u32, sequence: u64| p.id@ == id_text(stamp, nanos, sequence),
    {
        NetworkProfile {
            id: new_id(),
            name: owned(name),
            fingerprint,
            created_at: crate::clock::now_rfc3339(),
            last_seen_at: None,
            scan_count: 0,
        }
    }
}

/* ------------------------------------------------------------------ index */

/// What the app should do about the network it is currently attached to.
#[derive(Debug, Clone)]
pub enum Detection {
    /// Matches the network already selected. Nothing to do.
    Current { id: String, strength: MatchStrength },
    /// Matches a different saved network: offer to switch.
    Switch { id: String, name: String, strength: MatchStrength },
    /// Several saved networks look plausible and none is conclusive.
    Ambiguous { candidates: Vec<NetworkCandidate> },
    /// Nothing matches: offer to create one.
    Unknown { suggested_name: String },
    /// No usable network to fingerprint.
    NoNetwork,
}

#[derive(Debug, Clone)]
pub struct NetworkCandidate {
    pub id: String,
    pub name: String,
    pub strength: MatchStrength,
}

/// The saved networks and which one is selected.
#[derive(Debug, Clone)]
pub struct NetworkIndex {
    pub active: Option<String>,
    pub networks: Vec<NetworkProfile>,
}

impl Default for NetworkIndex {
    fn default() -> (ix: Self)
        ensures
            ix.active is None,
            ix.networks@.len() == 0,
    {
        NetworkIndex { active: None, networks: Vec::new() }
    }
}

/// The index of the first profile from `i` on with this id, or the length.
pub open spec fn index_of(nets: Seq<NetworkProfile>, id: Seq<char>, i: int) -> int
    decreases nets.len() - i,
{
    if i < 0 || i >= nets.len() {
        nets.len() as int
    } else if nets[i].id@ == id {
        i
    } else {
        index_of(nets, id, i + 1)
    }
}

/// Some profile has this id.
pub open spec fn taken(nets: Seq<NetworkProfile>, id: Seq<char>) -> bool {
    exists|i: int| 0 <= i < nets.len() && #[trigger] nets[i].id@ == id
}

/// No two profiles share an id.
pub open spec fn distinct_ids(nets: Seq<NetworkProfile>) -> bool {
    forall|i: int, j: int| 0 <= i < j < nets.len() ==> nets[i].id@ != nets[j].id@
}

pub proof fn lemma_index_of(nets: Seq<NetworkProfile>, id: Seq<char>, i: int)
    requires
        0 <= i <= nets.len(),
    ensures
        i <= index_of(nets, id, i) <= nets.len(),
        index_of(nets, id, i) < nets.len() ==> nets[index_of(nets, id, i)].id@ == id,
        forall|j: int| i <= j < index_of(nets, id, i) ==> nets[j].id@ != id,
    decreases nets.len() - i,
{
    if i < nets.len() && nets[i].id@ != id {
        lemma_index_of(nets, id, i + 1);
    }
}

proof fn lemma_taken_index(nets: Seq<NetworkProfile>, id: Seq<char>)
    ensures
        taken(nets, id) <==> index_of(nets, id, 0) < nets.len(),
{
    lemma_index_of(nets, id, 0);
    if taken(nets, id) {
        let w = choose|w: int| 0 <= w < nets.len() && #[trigger] nets[w].id@ == id;
        assert(nets[w].id@ == id);
    }
    if index_of(nets, id, 0) < nets.len() {
        assert(nets[index_of(nets, id, 0)].id@ == id);
    }
}

/// `base-k`: the id tried for the `k`-th collision.
pub open spec fn suffixed(base: Seq<char>, k: nat) -> Seq<char> {
    base + "-"@ + dec(k)
}

proof fn lemma_suffixed_injective(base: Seq<char>, a: nat, b: nat)
    requires
        suffixed(base, a) == suffixed(base, b),
    ensures
        a == b,
{
    let n: int = (base.len() + "-"@.len()) as int;
    assert(dec(a) =~= suffixed(base, a).skip(n));
    assert(dec(b) =~= suffixed(base, b).skip(n));
    crate::netutil::lemma_dec(a);
    crate::netutil::lemma_dec(b);
}

/// Only as many suffixes can be taken as there are profiles.
proof fn lemma_suffixes_bounded(nets: Seq<NetworkProfile>, base: Seq<char>, m: nat)
    requires
        forall|j: nat| 1 <= j <= m ==> taken(nets, #[trigger] suffixed(base, j)),
    ensures
        m <= nets.len(),
{
    let x = vstd::set_lib::set_int_range(1, m + 1 as int);
    let f = |j: int| index_of(nets, suffixed(base, j as nat), 0);
    vstd::set_lib::lemma_int_range(1, m + 1 as int);
    assert forall|j: int| x.contains(j) implies 0 <= #[trigger] f(j) < nets.len() && nets[f(j)].id@
        == suffixed(base, j as nat) by {
        assert(taken(nets, suffixed(base, j as nat)));
        lemma_taken_index(nets, suffixed(base, j as nat));
        lemma_index_of(nets, suffixed(base, j as nat), 0);
    }
    assert forall|a: int, b: int| x.contains(a) && x.contains(b) && #[trigger] f(a) == #[trigger] f(b) implies a
        == b by {
        lemma_suffixed_injective(base, a as nat, b as nat);
    }
    let y = x.map(f);
    vstd::set_lib::lemma_map_size(x, y, f);
    let r = vstd::set_lib::set_int_range(0, nets.len() as int);
    vstd::set_lib::lemma_int_range(0, nets.len() as int);
    assert forall|i: int| y.contains(i) implies r.contains(i) by {
        let j = choose|j: int| x.contains(j) && f(j) == i;
    }
    vstd::set_lib::lemma_len_subset(y, r);
}

/// The smallest `k >= 1` for which `base-k` is free.
pub open spec fn least_free(nets: Seq<NetworkProfile>, base: Seq<char>) -> nat {
    choose|k: nat|
        1 <= k && !taken(nets, suffixed(base, k)) && forall|j: nat|
            1 <= j < k ==> taken(nets, #[trigger] suffixed(base, j))
}

/// The id a profile is stored under: its own when free, else the first free
/// `id-k`.
pub open spec fn fresh_id_for(nets: Seq<NetworkProfile>, id: Seq<char>) -> Seq<char> {
    if taken(nets, id) {
        suffixed(id, least_free(nets, id))
    } else {
        id
    }
}

/// The strength of a profile's match against an observation.
pub open spec fn strength_of_net(p: NetworkProfile, observed: NetworkFingerprint) -> MatchStrength {
    strength_spec(p.fingerprint, observed)
}

/// The best rank among the first `n` profiles (0 when there are none).
pub open spec fn best_rank(nets: Seq<NetworkProfile>, observed: NetworkFingerprint, n: int) -> int
    decreases n,
{
    if n <= 0 || n > nets.len() {
        0
    } else {
        let r = best_rank(nets, observed, n - 1);
        let s = rank(strength_of_net(nets[n - 1], observed));
        if s > r {
            s
        } else {
            r
        }
    }
}

/// The first profile from `i` on whose rank is `r`, or the length.
pub open spec fn first_ranked(nets: Seq<NetworkProfile>, observed: NetworkFingerprint, r: int, i: int) -> int
    decreases nets.len() - i,
{
    if i < 0 || i >= nets.len() {
        nets.len() as int
    } else if rank(strength_of_net(nets[i], observed)) == r {
        i
    } else {
        first_ranked(nets, observed, r, i + 1)
    }
}

proof fn lemma_first_ranked(nets: Seq<NetworkProfile>, observed: NetworkFingerprint, r: int, i: int, b: int)
    requires
        0 <= i <= b < nets.len(),
        rank(strength_of_net(nets[b], observed)) == r,
        forall|j: int| i <= j < b ==> rank(strength_of_net(nets[j], observed)) != r,
    ensures
        first_ranked(nets, observed, r, i) == b,
    decreases b - i,
{
    if i < b {
        lemma_first_ranked(nets, observed, r, i + 1, b);
    }
}

/// The profiles that match at all, in order.
pub open spec fn matched(nets: Seq<NetworkProfile>, observed: NetworkFingerprint) -> Seq<NetworkProfile>
    decreases nets.len(),
{
    if nets.len() == 0 {
        nets
    } else if rank(strength_of_net(nets.last(), observed)) > 0 {
        matched(nets.drop_last(), observed).push(nets.last())
    } else {
        matched(nets.drop_last(), observed)
    }
}

pub open spec fn strength_of_rank(r: int) -> MatchStrength {
    if r == 3 {
        MatchStrength::Definitive
    } else if r == 2 {
        MatchStrength::Strong
    } else if r == 1 {
        MatchStrength::Weak
    } else {
        MatchStrength::Unmatched
    }
}

/// What to do about an observed fingerprint. Without a subnet or a gateway
/// MAC there is nothing to go on. Otherwise the best match decides, the
/// earliest saved among equals: none is unknown; a weak (subnet-only) best is
/// never acted on, every match is offered instead; a better one is either
/// the selected network or a switch to another.
pub open spec fn detection_ok(ix: NetworkIndex, observed: NetworkFingerprint, d: Detection) -> bool {
    let nets = ix.networks@;
    if observed.subnets@.len() == 0 && observed.gateway_mac is None {
        d is NoNetwork
    } else {
        let m = best_rank(nets, observed, nets.len() as int);
        if m == 0 {
            d matches Detection::Unknown { suggested_name } && suggested_name@ == observed.describe_spec()
        } else if m == 1 {
            let c = matched(nets, observed);
            d matches Detection::Ambiguous { candidates } && candidates@.len() == c.len() && forall|k: int|
                0 <= k < c.len() ==> {
                    &&& (#[trigger] candidates@[k]).id@ == c[k].id@
                    &&& candidates@[k].name@ == c[k].name@
                    &&& candidates@[k].strength == strength_of_net(c[k], observed)
                }
        } else {
            let b = nets[first_ranked(nets, observed, m, 0)];
            if ix.active is Some && ix.active.unwrap()@ == b.id@ {
                d matches Detection::Current { id, strength } && id@ == b.id@ && strength
                    == strength_of_rank(m)
            } else {
                d matches Detection::Switch { id, name, strength } && id@ == b.id@ && name@ == b.name@
                    && strength == strength_of_rank(m)
            }
        }
    }
}

impl NetworkIndex {
    fn position(&self, id: &str) -> (k: usize)
        ensures
            k == index_of(self.networks@, id@, 0),
    {
        let mut i: usize = 0;
        while i < self.networks.len()
            invariant
                i <= self.networks@.len(),
                index_of(self.networks@, id@, 0) == index_of(self.networks@, id@, i as int),
            decreases self.networks.len() - i,
        {
            if str_eq(self.networks[i].id.as_str(), id) {
                return i;
            }
            i += 1;
        }
        i
    }

    /// The first saved network with this id.
    pub fn get(&self, id: &str) -> (r: Option<&NetworkProfile>)
        ensures
            r is Some == taken(self.networks@, id@),
            r matches Some(p) ==> *p == self.networks@[index_of(self.networks@, id@, 0)],
    {
        let k = self.position(id);
        proof {
            lemma_taken_index(self.networks@, id@);
        }
        if k < self.networks.len() {
            Some(&self.networks[k])
        } else {
            None
        }
    }

    /// The first saved network with this id, for updating in place.
    pub fn get_mut(&mut self, id: &str) -> (r: Option<&mut NetworkProfile>)
        ensures
            r is Some == taken(old(self).networks@, id@),
            r is None ==> *final(self) == *old(self),
            match r {
                Some(p) => {
                    let k = index_of(old(self).networks@, id@, 0);
                    &&& *p == old(self).networks@[k]
                    &&& final(self).networks@ == old(self).networks@.update(k, *final(p))
                    &&& final(self).active == old(self).active
                },
                None => true,
            },
    {
        let k = self.position(id);
        proof {
            lemma_taken_index(self.networks@, id@);
        }
        if k < self.networks.len() {
            Some(&mut self.networks[k])
        } else {
            None
        }
    }

    /// The selected network, falling back to the first if the id is stale.
    pub fn active_profile(&self) -> (r: Option<&NetworkProfile>)
        ensures
            r == (if self.active is Some && taken(self.networks@, self.active.unwrap()@) {
                Some(&self.networks@[index_of(self.networks@, self.active.unwrap()@, 0)])
            } else if self.networks@.len() > 0 {
                Some(&self.networks@[0])
            } else {
                None
            }),
    {
        match &self.active {
            Some(id) => match self.get(id.as_str()) {
                Some(p) => {
                    return Some(p);
                },
                None => {},
            },
            None => {},
        }
        if self.networks.len() > 0 {
            Some(&self.networks[0])
        } else {
            None
        }
    }

    /// Adds a network and selects it. A profile whose id is already taken is
    /// stored as `id-1`, `id-2`, ... whichever comes first free: a duplicate
    /// id would silently merge two networks' histories.
    pub fn add(&mut self, profile: NetworkProfile) -> (id: String)
        requires
            old(self).networks@.len() < 0xffff_ffff,
        ensures
            id@ == fresh_id_for(old(self).networks@, profile.id@),
            !taken(old(self).networks@, id@),
            final(self).networks@.len() == old(self).networks@.len() + 1,
            final(self).networks@.drop_last() == old(self).networks@,
            final(self).networks@.last() == (NetworkProfile { id: final(self).networks@.last().id, ..profile }),
            final(self).networks@.last().id@ == id@,
            final(self).active is Some && final(self).active.unwrap()@ == id@,
            distinct_ids(old(self).networks@) ==> distinct_ids(final(self).networks@),
    {
        let ghost nets = self.networks@;
        let mut profile = profile;
        let ghost original = profile;
        if self.get(profile.id.as_str()).is_some() {
            let base = copy_text(&profile.id);
            let mut suffix: u32 = 1;
            let mut candidate = copy_text(&base);
            push_char(&mut candidate, '-');
            push_str(&mut candidate, dec_text(suffix as u64).as_str());
            proof {
                reveal_strlit("-");
                assert(candidate@ =~= suffixed(base@, suffix as nat));
            }
            while self.get(candidate.as_str()).is_some()
                invariant
                    self.networks@ == nets,
                    nets.len() < 0xffff_ffff,
                    base@ == original.id@,
                    1 <= suffix,
                    candidate@ == suffixed(base@, suffix as nat),
                    forall|j: nat| 1 <= j < suffix ==> taken(nets, #[trigger] suffixed(base@, j)),
                decreases nets.len() + 1 - suffix,
            {
                proof {
                    assert forall|j: nat| 1 <= j <= suffix implies taken(nets, #[trigger] suffixed(base@, j)) by {
                        if j == suffix {
                        }
                    }
                    lemma_suffixes_bounded(nets, base@, suffix as nat);
                }
                suffix += 1;
                candidate = copy_text(&base);
                push_char(&mut candidate, '-');
                push_str(&mut candidate, dec_text(suffix as u64).as_str());
            proof {
                reveal_strlit("-");
                assert(candidate@ =~= suffixed(base@, suffix as nat));
            }
            }
            proof {
                reveal_strlit("-");
                let k = suffix as nat;
                assert(1 <= k && !taken(nets, suffixed(base@, k)) && forall|j: nat|
                    1 <= j < k ==> taken(nets, #[trigger] suffixed(base@, j)));
                let l = least_free(nets, base@);
                if l < k {
                    assert(taken(nets, suffixed(base@, l)));
                } else if l > k {
                    assert(taken(nets, suffixed(base@, k)));
                }
            }
            profile.id = candidate;
        }
        let id = copy_text(&profile.id);
        let ghost kept = profile;
        self.networks.push(profile);
        self.active = Some(copy_text(&id));
        proof {
            assert(self.networks@.drop_last() =~= nets);
            if distinct_ids(nets) {
                assert forall|i: int, j: int| 0 <= i < j < self.networks@.len() implies self.networks@[i].id@
                    != self.networks@[j].id@ by {
                    if j == nets.len() {
                        assert(self.networks@[i] == nets[i]);
                        if nets[i].id@ == id@ {
                            assert(taken(nets, id@));
                        }
                    }
                }
            }
        }
        id
    }

    /// Decides what to do about an observed fingerprint.
    pub fn detect(&self, observed: &NetworkFingerprint) -> (d: Detection)
        ensures
            detection_ok(*self, *observed, d),
    {
        if observed.subnets.len() == 0 && observed.gateway_mac.is_none() {
            return Detection::NoNetwork;
        }
        let ghost nets = self.networks@;
        let mut best: u8 = 0;
        let mut at: usize = 0;
        let mut candidates: Vec<NetworkCandidate> = Vec::new();
        let mut i: usize = 0;
        while i < self.networks.len()
            invariant
                i <= nets.len(),
                nets == self.networks@,
                best as int == best_rank(nets, *observed, i as int),
                best <= 3,
                forall|j: int| 0 <= j < i ==> rank(strength_of_net(nets[j], *observed)) <= best,
                best > 0 ==> at < i && rank(strength_of_net(nets[at as int], *observed)) == best
                    && forall|j: int| 0 <= j < at ==> rank(strength_of_net(nets[j], *observed)) < best,
                candidates@.len() == matched(nets.take(i as int), *observed).len(),
                forall|k: int|
                    0 <= k < candidates@.len() ==> {
                        &&& (#[trigger] candidates@[k]).id@ == matched(nets.take(i as int), *observed)[k].id@
                        &&& candidates@[k].name@ == matched(nets.take(i as int), *observed)[k].name@
                        &&& candidates@[k].strength == strength_of_net(
                            matched(nets.take(i as int), *observed)[k],
                            *observed,
                        )
                    },
            decreases nets.len() - i,
        {
            let p = &self.networks[i];
            let s = match_strength(&p.fingerprint, observed);
            let r = rank_of(s);
            proof {
                assert(nets.take(i + 1).drop_last() =~= nets.take(i as int));
                assert(nets.take(i + 1).last() == nets[i as int]);
            }
            if r > best {
                best = r;
                at = i;
            }
            if r > 0 {
                candidates.push(NetworkCandidate { id: copy_text(&p.id), name: copy_text(&p.name), strength: s });
            }
            i += 1;
        }
        proof {
            assert(nets.take(nets.len() as int) =~= nets);
        }
        if best == 0 {
            return Detection::Unknown { suggested_name: observed.describe() };
        }
        if best == 1 {
            return Detection::Ambiguous { candidates };
        }
        proof {
            lemma_first_ranked(nets, *observed, best as int, 0, at as int);
        }
        let b = &self.networks[at];
        let is_active = match &self.active {
            Some(a) => str_eq(a.as_str(), b.id.as_str()),
            None => false,
        };
        let strength = if best == 3 {
            MatchStrength::Definitive
        } else {
            MatchStrength::Strong
        };
        if is_active {
            Detection::Current { id: copy_text(&b.id), strength }
        } else {
            Detection::Switch { id: copy_text(&b.id), name: copy_text(&b.name), strength }
        }
    }
}

/// Unless both sides know their gateway's MAC, a network that shares a
/// subnet and a DNS server with the stored one is a strong match.
pub proof fn law_subnet_and_resolver_match_strongly(stored: NetworkFingerprint, observed: NetworkFingerprint, i: int, j: int, k: int, l: int)
    requires
        stored.gateway_mac is None || observed.gateway_mac is None,
        0 <= i < stored.subnets@.len(),
        0 <= j < observed.subnets@.len(),
        stored.subnets@[i]@ == observed.subnets@[j]@,
        0 <= k < stored.dns_servers@.len(),
        0 <= l < observed.dns_servers@.len(),
        stored.dns_servers@[k]@ == observed.dns_servers@[l]@,
    ensures
        strength_spec(stored, observed) == MatchStrength::Strong,
{
    assert(strings_view(observed.subnets@)[j] == strings_view(stored.subnets@)[i]);
    assert(strings_view(observed.subnets@).contains(strings_view(stored.subnets@)[i]));
    assert(strings_view(observed.dns_servers@)[l] == strings_view(stored.dns_servers@)[k]);
    assert(strings_view(observed.dns_servers@).contains(strings_view(stored.dns_servers@)[k]));
}

} // verus!
