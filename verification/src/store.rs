//! Run-to-run diffing and history, and the rules for snapshot ids.
//!
//! Each run is one file named by its id, so a directory listing is already in
//! chronological order. Reading and writing those files is the application's
//! job; what a run means relative to the one before it is decided here.
use crate::text::{
    alnum, chars_of, dec, is_alnum, join, lower, owned, push_dec, push_str, str_eq,
    strings_view,
};
use crate::types::{ChangeKind, Device, DeviceChange, PortProfile, ScanDiff};
use vstd::prelude::*;

verus! {

/// Where snapshots are kept.
#[derive(Debug, Clone)]
pub struct Store {
    root: String,
}

impl Store {
    pub fn new(root: String) -> (s: Store)
        ensures
            s.root_text() == root@,
    {
        Store { root }
    }

    pub closed spec fn root_text(&self) -> Seq<char> {
        self.root@
    }

    /// The directory snapshots are kept in.
    pub fn root(&self) -> (r: &str)
        ensures
            r@ == self.root_text(),
    {
        self.root.as_str()
    }

    /// Ids come from the frontend, so anything that could escape the directory
    /// is rejected rather than sanitised.
    pub fn is_valid_id(id: &str) -> (b: bool)
        ensures
            b == valid_id(id@),
    {
        let c = chars_of(id);
        if c.len() == 0 || c.len() >= 64 {
            return false;
        }
        let mut i: usize = 0;
        while i < c.len()
            invariant
                i <= c@.len(),
                c@ == id@,
                forall|k: int| 0 <= k < i ==> id_char(#[trigger] c@[k]),
            decreases c.len() - i,
        {
            if !(alnum(c[i]) || c[i] == '-' || c[i] == '_') {
                return false;
            }
            i += 1;
        }
        true
    }
}

pub open spec fn id_char(c: char) -> bool {
    is_alnum(c) || c == '-' || c == '_'
}

/// Non-empty, under sixty-four characters, and only letters, digits, `-` and `_`.
pub open spec fn valid_id(id: Seq<char>) -> bool {
    0 < id.len() < 64 && forall|k: int| 0 <= k < id.len() ==> id_char(#[trigger] id[k])
}

/* ------------------------------------------------------------------- pairing */

/// The first previous record at or after `i`, not yet paired, with this MAC.
pub open spec fn free_mac(prev: Seq<Device>, used: Seq<bool>, mac: Seq<char>, i: int) -> Option<int>
    decreases prev.len() - i,
{
    if i < 0 || i >= prev.len() {
        None
    } else if !used[i] && prev[i].mac is Some && prev[i].mac->0@ == mac {
        Some(i)
    } else {
        free_mac(prev, used, mac, i + 1)
    }
}

/// The first previous record at or after `i`, not yet paired, at this address.
pub open spec fn free_ip(prev: Seq<Device>, used: Seq<bool>, ip: Seq<char>, i: int) -> Option<int>
    decreases prev.len() - i,
{
    if i < 0 || i >= prev.len() {
        None
    } else if !used[i] && prev[i].ip@ == ip {
        Some(i)
    } else {
        free_ip(prev, used, ip, i + 1)
    }
}

/// The first pass, by MAC, over the first `n` current records: which previous
/// records are taken, the pairs (previous, current) so far, and the current
/// records still unpaired.
pub open spec fn mac_pass(prev: Seq<Device>, cur: Seq<Device>, n: int) -> (Seq<bool>, Seq<(int, int)>, Seq<int>)
    decreases n,
{
    if n <= 0 {
        (Seq::new(prev.len(), |i: int| false), seq![], seq![])
    } else {
        let st = mac_pass(prev, cur, n - 1);
        match cur[n - 1].mac {
            Some(m) => match free_mac(prev, st.0, m@, 0) {
                Some(i) => (st.0.update(i, true), st.1.push((i, n - 1)), st.2),
                None => (st.0, st.1, st.2.push(n - 1)),
            },
            None => (st.0, st.1, st.2.push(n - 1)),
        }
    }
}

/// The second pass, by address, over the first `n` records the first pass left:
/// which previous records are taken, the pairs, and the records that are new.
pub open spec fn ip_pass(prev: Seq<Device>, cur: Seq<Device>, n: int) -> (Seq<bool>, Seq<(int, int)>, Seq<int>)
    decreases n,
{
    let first = mac_pass(prev, cur, cur.len() as int);
    if n <= 0 {
        (first.0, first.1, seq![])
    } else {
        let st = ip_pass(prev, cur, n - 1);
        let c = first.2[n - 1];
        match free_ip(prev, st.0, cur[c].ip@, 0) {
            Some(i) => (st.0.update(i, true), st.1.push((i, c)), st.2),
            None => (st.0, st.1, st.2.push(c)),
        }
    }
}

/// The previous records among the first `n` that nothing paired with.
pub open spec fn unused_upto(used: Seq<bool>, n: int) -> Seq<int>
    decreases n,
{
    if n <= 0 {
        seq![]
    } else if !used[n - 1] {
        unused_upto(used, n - 1).push(n - 1)
    } else {
        unused_upto(used, n - 1)
    }
}

/// Devices paired across two runs, by MAC first and then by address: the pairs
/// (previous, current), the current records that are new, and the previous
/// records that are gone.
pub open spec fn pairing(prev: Seq<Device>, cur: Seq<Device>) -> (Seq<(int, int)>, Seq<int>, Seq<int>) {
    let first = mac_pass(prev, cur, cur.len() as int);
    let second = ip_pass(prev, cur, first.2.len() as int);
    (second.1, second.2, unused_upto(second.0, prev.len() as int))
}

pub struct Pairing {
    /// (previous, current) indices.
    pub pairs: Vec<(usize, usize)>,
    pub added: Vec<usize>,
    pub removed: Vec<usize>,
}

pub open spec fn pair_view(v: Seq<(usize, usize)>) -> Seq<(int, int)> {
    Seq::new(v.len(), |k: int| (v[k].0 as int, v[k].1 as int))
}

pub open spec fn index_view(v: Seq<usize>) -> Seq<int> {
    Seq::new(v.len(), |k: int| v[k] as int)
}

fn same_text(a: &String, b: &String) -> (r: bool)
    ensures
        r == (a@ == b@),
{
    str_eq(a.as_str(), b.as_str())
}

fn find_free_mac(prev: &[Device], used: &Vec<bool>, mac: &String) -> (r: Option<usize>)
    requires
        used@.len() == prev@.len(),
    ensures
        r matches Some(i) ==> free_mac(prev@, used@, mac@, 0) == Some(i as int) && i < prev@.len(),
        r is None ==> free_mac(prev@, used@, mac@, 0) is None,
{
    let mut i: usize = 0;
    while i < prev.len()
        invariant
            i <= prev@.len(),
            used@.len() == prev@.len(),
            free_mac(prev@, used@, mac@, 0) == free_mac(prev@, used@, mac@, i as int),
        decreases prev.len() - i,
    {
        if !used[i] {
            if let Some(m) = &prev[i].mac {
                if same_text(m, mac) {
                    return Some(i);
                }
            }
        }
        i += 1;
    }
    None
}

fn find_free_ip(prev: &[Device], used: &Vec<bool>, ip: &String) -> (r: Option<usize>)
    requires
        used@.len() == prev@.len(),
    ensures
        r matches Some(i) ==> free_ip(prev@, used@, ip@, 0) == Some(i as int) && i < prev@.len(),
        r is None ==> free_ip(prev@, used@, ip@, 0) is None,
{
    let mut i: usize = 0;
    while i < prev.len()
        invariant
            i <= prev@.len(),
            used@.len() == prev@.len(),
            free_ip(prev@, used@, ip@, 0) == free_ip(prev@, used@, ip@, i as int),
        decreases prev.len() - i,
    {
        if !used[i] && same_text(&prev[i].ip, ip) {
            return Some(i);
        }
        i += 1;
    }
    None
}

proof fn lemma_free_mac_range(prev: Seq<Device>, used: Seq<bool>, mac: Seq<char>, i: int)
    ensures
        free_mac(prev, used, mac, i) matches Some(k) ==> 0 <= k < prev.len(),
    decreases prev.len() - i,
{
    if 0 <= i < prev.len() {
        lemma_free_mac_range(prev, used, mac, i + 1);
    }
}

proof fn lemma_free_ip_range(prev: Seq<Device>, used: Seq<bool>, ip: Seq<char>, i: int)
    ensures
        free_ip(prev, used, ip, i) matches Some(k) ==> 0 <= k < prev.len(),
    decreases prev.len() - i,
{
    if 0 <= i < prev.len() {
        lemma_free_ip_range(prev, used, ip, i + 1);
    }
}

proof fn lemma_mac_pass_shape(prev: Seq<Device>, cur: Seq<Device>, n: int)
    requires
        0 <= n <= cur.len(),
    ensures
        mac_pass(prev, cur, n).0.len() == prev.len(),
        forall|k: int| 0 <= k < mac_pass(prev, cur, n).2.len() ==> 0 <= #[trigger] mac_pass(prev, cur, n).2[k] < n,
    decreases n,
{
    if n > 0 {
        lemma_mac_pass_shape(prev, cur, n - 1);
        let st = mac_pass(prev, cur, n - 1);
        if let Some(m) = cur[n - 1].mac {
            lemma_free_mac_range(prev, st.0, m@, 0);
        }
    }
}

/// Pairs devices across two runs, by MAC first and then by address.
///
/// Both passes matter. Matching on MAC makes a DHCP lease change read as "same
/// device, new address". The address fallback exists because ARP resolution is
/// unreliable — the *same* device can have a MAC in one run and not the next,
/// and keying on a single composite identity would then report it as both
/// "disappeared" and "new".
pub fn pair_devices(previous: &[Device], current: &[Device]) -> (p: Pairing)
    ensures
        pair_view(p.pairs@) == pairing(previous@, current@).0,
        index_view(p.added@) == pairing(previous@, current@).1,
        index_view(p.removed@) == pairing(previous@, current@).2,
        forall|k: int| 0 <= k < p.pairs@.len() ==> (#[trigger] p.pairs@[k]).0 < previous@.len() && p.pairs@[k].1 < current@.len(),
        forall|k: int| 0 <= k < p.added@.len() ==> #[trigger] p.added@[k] < current@.len(),
        forall|k: int| 0 <= k < p.removed@.len() ==> #[trigger] p.removed@[k] < previous@.len(),
{
    let mut used: Vec<bool> = Vec::new();
    let mut u: usize = 0;
    while u < previous.len()
        invariant
            u <= previous@.len(),
            used@ == Seq::new(u as nat, |i: int| false),
        decreases previous.len() - u,
    {
        used.push(false);
        proof {
            assert(used@ =~= Seq::new((u + 1) as nat, |i: int| false));
        }
        u += 1;
    }
    let mut pairs: Vec<(usize, usize)> = Vec::new();
    let mut unmatched: Vec<usize> = Vec::new();
    let mut c: usize = 0;
    while c < current.len()
        invariant
            c <= current@.len(),
            used@ == mac_pass(previous@, current@, c as int).0,
            pair_view(pairs@) == mac_pass(previous@, current@, c as int).1,
            index_view(unmatched@) == mac_pass(previous@, current@, c as int).2,
            used@.len() == previous@.len(),
            forall|k: int| 0 <= k < pairs@.len() ==> (#[trigger] pairs@[k]).0 < previous@.len() && pairs@[k].1 < current@.len(),
        decreases current.len() - c,
    {
        proof {
            lemma_mac_pass_shape(previous@, current@, c as int);
        }
        let ghost st = mac_pass(previous@, current@, c as int);
        match &current[c].mac {
            Some(m) => match find_free_mac(previous, &used, m) {
                Some(i) => {
                    assert(mac_pass(previous@, current@, c + 1) == (st.0.update(i as int, true), st.1.push((i as int, c as int)), st.2));
                    used.set(i, true);
                    pairs.push((i, c));
                    proof {
                        assert(pair_view(pairs@) =~= mac_pass(previous@, current@, c + 1).1);
                    }
                },
                None => {
                    unmatched.push(c);
                    proof {
                        assert(index_view(unmatched@) =~= mac_pass(previous@, current@, c + 1).2);
                    }
                },
            },
            None => {
                unmatched.push(c);
                proof {
                    assert(index_view(unmatched@) =~= mac_pass(previous@, current@, c + 1).2);
                }
            },
        }
        c += 1;
    }
    let mut added: Vec<usize> = Vec::new();
    let mut k: usize = 0;
    let ghost first = mac_pass(previous@, current@, current@.len() as int);
    proof {
        lemma_mac_pass_shape(previous@, current@, current@.len() as int);
    }
    while k < unmatched.len()
        invariant
            k <= unmatched@.len(),
            index_view(unmatched@) == first.2,
            first == mac_pass(previous@, current@, current@.len() as int),
            forall|j: int| 0 <= j < first.2.len() ==> 0 <= #[trigger] first.2[j] < current@.len(),
            used@ == ip_pass(previous@, current@, k as int).0,
            pair_view(pairs@) == ip_pass(previous@, current@, k as int).1,
            index_view(added@) == ip_pass(previous@, current@, k as int).2,
            used@.len() == previous@.len(),
            forall|k: int| 0 <= k < pairs@.len() ==> (#[trigger] pairs@[k]).0 < previous@.len() && pairs@[k].1 < current@.len(),
            forall|k: int| 0 <= k < added@.len() ==> #[trigger] added@[k] < current@.len(),
        decreases unmatched.len() - k,
    {
        let ci = unmatched[k];
        assert(first.2[k as int] == ci as int);
        let ghost st = ip_pass(previous@, current@, k as int);
        match find_free_ip(previous, &used, &current[ci].ip) {
            Some(i) => {
                assert(ip_pass(previous@, current@, k + 1) == (st.0.update(i as int, true), st.1.push((i as int, ci as int)), st.2));
                used.set(i, true);
                pairs.push((i, ci));
                proof {
                    assert(pair_view(pairs@) =~= ip_pass(previous@, current@, k + 1).1);
                }
            },
            None => {
                assert(ip_pass(previous@, current@, k + 1) == (st.0, st.1, st.2.push(ci as int)));
                added.push(ci);
                proof {
                    assert(index_view(added@) =~= ip_pass(previous@, current@, k + 1).2);
                }
            },
        }
        k += 1;
    }
    let mut removed: Vec<usize> = Vec::new();
    let mut r: usize = 0;
    while r < previous.len()
        invariant
            r <= previous@.len(),
            used@.len() == previous@.len(),
            index_view(removed@) == unused_upto(used@, r as int),
            forall|k: int| 0 <= k < removed@.len() ==> #[trigger] removed@[k] < previous@.len(),
        decreases previous.len() - r,
    {
        if !used[r] {
            removed.push(r);
            proof {
                assert(index_view(removed@) =~= unused_upto(used@, r + 1));
            }
        }
        r += 1;
    }
    Pairing { pairs, added, removed }
}

/* ---------------------------------------------------------------------- diff */

pub open spec fn ports_of(d: Device) -> Seq<u16> {
    Seq::new(d.ports@.len(), |i: int| d.ports@[i].port)
}

pub open spec fn ascending(l: Seq<u16>) -> bool {
    forall|i: int, j: int| 0 <= i < j < l.len() ==> l[i] < l[j]
}

/// Whether `l` lists, ascending and once each, the values of `a` that `b` lacks.
pub open spec fn lists_fresh(l: Seq<u16>, a: Seq<u16>, b: Seq<u16>) -> bool {
    &&& ascending(l)
    &&& forall|x: u16| #[trigger] l.contains(x) == (a.contains(x) && !b.contains(x))
}

/// The values of `a` that `b` lacks, ascending, each once.
pub open spec fn fresh_ports(a: Seq<u16>, b: Seq<u16>) -> Seq<u16> {
    choose|l: Seq<u16>| lists_fresh(l, a, b)
}

/// An ascending list is fixed by which values it holds.
proof fn lemma_ascending_unique(l1: Seq<u16>, l2: Seq<u16>)
    requires
        ascending(l1),
        ascending(l2),
        forall|x: u16| #[trigger] l1.contains(x) == l2.contains(x),
    ensures
        l1 == l2,
    decreases l1.len(),
{
    if l1.len() == 0 {
        if l2.len() > 0 {
            assert(l2.contains(l2[0]));
            assert(l1.contains(l2[0]));
        }
        assert(l1 =~= l2);
    } else {
        assert(l1.contains(l1[0]));
        assert(l2.contains(l1[0]));
        assert(l2.len() > 0);
        assert(l2.contains(l2[0]));
        assert(l1.contains(l2[0]));
        let w1 = choose|w: int| 0 <= w < l2.len() && l2[w] == l1[0];
        let w2 = choose|w: int| 0 <= w < l1.len() && l1[w] == l2[0];
        assert(l1[0] == l2[0]) by {
            if w1 > 0 {
                assert(l2[0] < l2[w1]);
            }
            if w2 > 0 {
                assert(l1[0] < l1[w2]);
            }
        }
        let t1 = l1.drop_first();
        let t2 = l2.drop_first();
        assert forall|x: u16| #[trigger] t1.contains(x) == t2.contains(x) by {
            if t1.contains(x) {
                let w = choose|w: int| 0 <= w < t1.len() && t1[w] == x;
                assert(l1[w + 1] == x);
                assert(l1.contains(x));
                assert(l2.contains(x));
                let v = choose|v: int| 0 <= v < l2.len() && l2[v] == x;
                if v == 0 {
                    assert(l1[0] < l1[w + 1]);
                }
                assert(t2[v - 1] == x);
            }
            if t2.contains(x) {
                let w = choose|w: int| 0 <= w < t2.len() && t2[w] == x;
                assert(l2[w + 1] == x);
                assert(l2.contains(x));
                assert(l1.contains(x));
                let v = choose|v: int| 0 <= v < l1.len() && l1[v] == x;
                if v == 0 {
                    assert(l2[0] < l2[w + 1]);
                }
                assert(t1[v - 1] == x);
            }
        }
        lemma_ascending_unique(t1, t2);
        assert(l1.len() == l2.len());
        assert forall|i: int| 0 <= i < l1.len() implies l1[i] == l2[i] by {
            if i > 0 {
                assert(l1[i] == t1[i - 1]);
                assert(l2[i] == t2[i - 1]);
            }
        }
        assert(l1 =~= l2);
    }
}

fn port_numbers(d: &Device) -> (v: Vec<u16>)
    ensures
        v@ == ports_of(*d),
{
    let mut v: Vec<u16> = Vec::new();
    let mut i: usize = 0;
    while i < d.ports.len()
        invariant
            i <= d.ports@.len(),
            v@ =~= Seq::new(i as nat, |k: int| d.ports@[k].port),
        decreases d.ports.len() - i,
    {
        v.push(d.ports[i].port);
        i += 1;
    }
    v
}

fn has_port(v: &Vec<u16>, x: u16) -> (b: bool)
    ensures
        b == v@.contains(x),
{
    let mut i: usize = 0;
    while i < v.len()
        invariant
            i <= v@.len(),
            forall|k: int| 0 <= k < i ==> v@[k] != x,
        decreases v.len() - i,
    {
        if v[i] == x {
            return true;
        }
        i += 1;
    }
    false
}

/// The ports of `a` that `b` lacks, ascending, each once.
fn fresh(a: &Vec<u16>, b: &Vec<u16>) -> (out: Vec<u16>)
    ensures
        out@ == fresh_ports(a@, b@),
{
    let mut out: Vec<u16> = Vec::new();
    let mut lo: u32 = 0;
    loop
        invariant
            lo <= 65536,
            ascending(out@),
            forall|k: int| 0 <= k < out@.len() ==> out@[k] < lo,
            forall|x: u16| #[trigger] out@.contains(x) ==> a@.contains(x) && !b@.contains(x),
            forall|x: u16| (x as u32) < lo && a@.contains(x) && !b@.contains(x) ==> #[trigger] out@.contains(x),
        decreases 65536 - lo,
    {
        // The smallest value of `a` at or above `lo` that `b` lacks.
        let mut best: Option<u16> = None;
        let mut i: usize = 0;
        while i < a.len()
            invariant
                i <= a@.len(),
                best matches Some(v) ==> lo <= v && a@.contains(v) && !b@.contains(v),
                forall|k: int| 0 <= k < i && lo <= a@[k] && !b@.contains(a@[k]) ==> (best matches Some(v) && v <= a@[k]),
            decreases a.len() - i,
        {
            let x = a[i];
            if (x as u32) >= lo && !has_port(b, x) {
                let better = match best {
                    Some(v) => x < v,
                    None => true,
                };
                if better {
                    best = Some(x);
                }
            }
            i += 1;
        }
        match best {
            Some(v) => {
                let ghost before = out@;
                out.push(v);
                proof {
                    assert forall|x: u16| #[trigger] out@.contains(x) implies a@.contains(x) && !b@.contains(x) by {
                        if x != v {
                            let w = choose|w: int| 0 <= w < out@.len() && out@[w] == x;
                            assert(before[w] == x);
                            assert(before.contains(x));
                        }
                    }
                    assert forall|x: u16| (x as u32) < v + 1 && a@.contains(x) && !b@.contains(x) implies #[trigger] out@.contains(x) by {
                        if (x as u32) < lo {
                            assert(before.contains(x));
                            let w = choose|w: int| 0 <= w < before.len() && before[w] == x;
                            assert(out@[w] == x);
                        } else if x != v {
                            let w = choose|w: int| 0 <= w < a@.len() && a@[w] == x;
                            assert(v <= a@[w]);
                        } else {
                            assert(out@[out@.len() - 1] == x);
                        }
                    }
                }
                lo = v as u32 + 1;
            },
            None => {
                proof {
                    assert forall|x: u16| #[trigger] out@.contains(x) == (a@.contains(x) && !b@.contains(x)) by {
                        if a@.contains(x) && !b@.contains(x) && (x as u32) >= lo {
                            let w = choose|w: int| 0 <= w < a@.len() && a@[w] == x;
                            assert(false);
                        }
                    }
                    assert(lists_fresh(out@, a@, b@));
                    lemma_ascending_unique(out@, fresh_ports(a@, b@));
                }
                return out;
            },
        }
    }
}

/// The ports separated by `, `.
pub open spec fn ports_text(l: Seq<u16>) -> Seq<char> {
    join(Seq::new(l.len(), |i: int| dec(l[i] as nat)), ", "@)
}

fn join_ports(ports: &Vec<u16>) -> (s: String)
    ensures
        s@ == ports_text(ports@),
{
    let mut s = String::new();
    let mut i: usize = 0;
    while i < ports.len()
        invariant
            i <= ports@.len(),
            s@ == ports_text(ports@.take(i as int)),
        decreases ports.len() - i,
    {
        let ghost parts = Seq::new((i + 1) as nat, |k: int| dec(ports@[k] as nat));
        proof {
            assert(ports@.take(i + 1).take(i as int) =~= ports@.take(i as int));
            assert(parts.drop_last() =~= Seq::new(i as nat, |k: int| dec(ports@.take(i as int)[k] as nat)));
            assert(Seq::new((i + 1) as nat, |k: int| dec(ports@.take(i + 1)[k] as nat)) =~= parts);
        }
        if i > 0 {
            push_str(&mut s, ", ");
        }
        push_dec(&mut s, ports[i] as u64);
        i += 1;
    }
    assert(ports@.take(ports@.len() as int) =~= ports@);
    s
}

pub open spec fn is_separator(c: char) -> bool {
    c == ' ' || c == '.' || c == '_' || c == '-'
}

/// A name lowercased, without spaces, dots, underscores or dashes.
pub open spec fn name_key(s: Seq<char>) -> Seq<char>
    decreases s.len(),
{
    if s.len() == 0 {
        seq![]
    } else if is_separator(s.last()) {
        name_key(s.drop_last())
    } else {
        name_key(s.drop_last()).push(lower(s.last()))
    }
}

/// Lowercases a name and drops its separators, so cosmetic variants compare equal.
pub fn normalize_name(name: &str) -> (out: String)
    ensures
        out@ == name_key(name@),
{
    let c = chars_of(name);
    let mut out: Vec<char> = Vec::new();
    let mut i: usize = 0;
    while i < c.len()
        invariant
            i <= c@.len(),
            out@ == name_key(c@.take(i as int)),
        decreases c.len() - i,
    {
        proof {
            assert(c@.take(i + 1).drop_last() =~= c@.take(i as int));
        }
        let ch = c[i];
        if !(ch == ' ' || ch == '.' || ch == '_' || ch == '-') {
            out.push(crate::text::to_lower(ch));
        }
        i += 1;
    }
    assert(c@.take(c@.len() as int) =~= c@);
    crate::text::string_of(&out)
}

pub open spec fn appeared_text(d: Device) -> Seq<char> {
    d.display_name@ + " ("@ + d.ip@ + ") was not present in the previous scan"@
}

pub open spec fn disappeared_text(d: Device) -> Seq<char> {
    d.display_name@ + " ("@ + d.ip@ + ") is no longer responding"@
}

pub open spec fn moved_text(b: Device, d: Device) -> Seq<char> {
    d.display_name@ + " moved from "@ + b.ip@ + " to "@ + d.ip@
}

pub open spec fn port_change_text(d: Device, verb: Seq<char>, l: Seq<u16>) -> Seq<char> {
    d.display_name@ + " ("@ + d.ip@ + ") "@ + verb + " port"@ + (if l.len() == 1 {
        ""@
    } else {
        "s"@
    }) + " "@ + ports_text(l)
}

pub open spec fn renamed_text(b: Device, d: Device) -> Seq<char> {
    b.display_name@ + " is now identified as "@ + d.display_name@
}

/// Whether a pair's name changed in a way worth reporting: not merely gaining
/// a name where there was only an address, and not a cosmetic separator flip.
pub open spec fn renamed(b: Device, d: Device) -> bool {
    b.display_name@ != d.display_name@ && b.display_name@ != b.ip@ && name_key(b.display_name@)
        != name_key(d.display_name@)
}

/// The details of one kind of pair change over the first `n` pairs:
/// 1 ports opened, 2 address changed, 4 ports closed, 5 renamed.
pub open spec fn pair_details(
    prev: Seq<Device>,
    cur: Seq<Device>,
    pairs: Seq<(int, int)>,
    n: int,
    which: int,
    comparable: bool,
) -> Seq<Seq<char>>
    decreases n,
{
    if n <= 0 {
        seq![]
    } else {
        let rest = pair_details(prev, cur, pairs, n - 1, which, comparable);
        let b = prev[pairs[n - 1].0];
        let d = cur[pairs[n - 1].1];
        if which == 1 {
            let l = fresh_ports(ports_of(d), ports_of(b));
            if comparable && l.len() > 0 {
                rest.push(port_change_text(d, "opened"@, l))
            } else {
                rest
            }
        } else if which == 2 {
            if b.ip@ != d.ip@ {
                rest.push(moved_text(b, d))
            } else {
                rest
            }
        } else if which == 4 {
            let l = fresh_ports(ports_of(b), ports_of(d));
            if comparable && l.len() > 0 {
                rest.push(port_change_text(d, "closed"@, l))
            } else {
                rest
            }
        } else {
            if renamed(b, d) {
                rest.push(renamed_text(b, d))
            } else {
                rest
            }
        }
    }
}

pub open spec fn tagged(kind: ChangeKind, s: Seq<Seq<char>>) -> Seq<(ChangeKind, Seq<char>)> {
    Seq::new(s.len(), |i: int| (kind, s[i]))
}

/// The changes between two runs, newly-appeared devices first — that is the
/// security-relevant signal — then opened ports, moves, departures, closed
/// ports and renames.
pub open spec fn diff_spec(prev: Seq<Device>, cur: Seq<Device>, comparable: bool) -> Seq<(ChangeKind, Seq<char>)> {
    let p = pairing(prev, cur);
    let n = p.0.len() as int;
    tagged(ChangeKind::Appeared, Seq::new(p.1.len(), |k: int| appeared_text(cur[p.1[k]])))
        + tagged(ChangeKind::PortsOpened, pair_details(prev, cur, p.0, n, 1, comparable))
        + tagged(ChangeKind::IpChanged, pair_details(prev, cur, p.0, n, 2, comparable))
        + tagged(ChangeKind::Disappeared, Seq::new(p.2.len(), |k: int| disappeared_text(prev[p.2[k]])))
        + tagged(ChangeKind::PortsClosed, pair_details(prev, cur, p.0, n, 4, comparable))
        + tagged(ChangeKind::NameChanged, pair_details(prev, cur, p.0, n, 5, comparable))
}

pub open spec fn change_view(c: Seq<DeviceChange>) -> Seq<(ChangeKind, Seq<char>)> {
    Seq::new(c.len(), |i: int| (c[i].kind, c[i].detail@))
}

fn kind_for(which: u8) -> (k: ChangeKind)
    ensures
        k == kind_of(which as int),
{
    if which == 1 {
        ChangeKind::PortsOpened
    } else if which == 2 {
        ChangeKind::IpChanged
    } else if which == 4 {
        ChangeKind::PortsClosed
    } else {
        ChangeKind::NameChanged
    }
}

pub open spec fn kind_of(which: int) -> ChangeKind {
    if which == 1 {
        ChangeKind::PortsOpened
    } else if which == 2 {
        ChangeKind::IpChanged
    } else if which == 4 {
        ChangeKind::PortsClosed
    } else {
        ChangeKind::NameChanged
    }
}

fn port_change_detail(d: &Device, verb: &str, l: &Vec<u16>) -> (s: String)
    ensures
        s@ == port_change_text(*d, verb@, l@),
{
    let mut s = d.display_name.clone();
    push_str(&mut s, " (");
    push_str(&mut s, d.ip.as_str());
    push_str(&mut s, ") ");
    push_str(&mut s, verb);
    push_str(&mut s, " port");
    if l.len() == 1 {
        push_str(&mut s, "");
    } else {
        push_str(&mut s, "s");
    }
    push_str(&mut s, " ");
    let p = join_ports(l);
    push_str(&mut s, p.as_str());
    s
}

/// One kind of pair change, for every pair in order.
/// `c` carries copies of the records `o` names: the current run's record (or
/// the previous run's, when `o.0` is false) at `o.1`, and the previous run's
/// record at `o.2` that it is compared with, if any.
pub open spec fn origin_ok(prev: Seq<Device>, cur: Seq<Device>, c: DeviceChange, o: (bool, int, Option<int>)) -> bool {
    &&& cloned(if o.0 { cur[o.1] } else { prev[o.1] }, c.device)
    &&& match o.2 {
        None => c.previous is None,
        Some(j) => c.previous matches Some(pd) && cloned(prev[j], pd),
    }
}

/// The records behind each pair change of one kind over the first `n` pairs:
/// the current record, compared with the previous one.
pub open spec fn pair_origins(
    prev: Seq<Device>,
    cur: Seq<Device>,
    pairs: Seq<(int, int)>,
    n: int,
    which: int,
    comparable: bool,
) -> Seq<(bool, int, Option<int>)>
    decreases n,
{
    if n <= 0 {
        seq![]
    } else {
        let rest = pair_origins(prev, cur, pairs, n - 1, which, comparable);
        if pair_details(prev, cur, pairs, n, which, comparable).len() > pair_details(
            prev,
            cur,
            pairs,
            n - 1,
            which,
            comparable,
        ).len() {
            rest.push((true, pairs[n - 1].1, Some(pairs[n - 1].0)))
        } else {
            rest
        }
    }
}

proof fn lemma_origins_len(prev: Seq<Device>, cur: Seq<Device>, pairs: Seq<(int, int)>, n: int, which: int, comparable: bool)
    requires
        0 <= n,
    ensures
        pair_origins(prev, cur, pairs, n, which, comparable).len() == pair_details(prev, cur, pairs, n, which, comparable).len(),
    decreases n,
{
    if n > 0 {
        lemma_origins_len(prev, cur, pairs, n - 1, which, comparable);
    }
}

/// The records behind every change of `diff_spec`, change by change:
/// appeared devices are current records, departed ones previous records,
/// and every other change a current record compared with its predecessor.
pub open spec fn diff_origins(prev: Seq<Device>, cur: Seq<Device>, comparable: bool) -> Seq<(bool, int, Option<int>)> {
    let p = pairing(prev, cur);
    let n = p.0.len() as int;
    Seq::new(p.1.len(), |k: int| (true, p.1[k], None::<int>))
        + pair_origins(prev, cur, p.0, n, 1, comparable)
        + pair_origins(prev, cur, p.0, n, 2, comparable)
        + Seq::new(p.2.len(), |k: int| (false, p.2[k], None::<int>))
        + pair_origins(prev, cur, p.0, n, 4, comparable)
        + pair_origins(prev, cur, p.0, n, 5, comparable)
}

fn pair_stage(
    previous: &[Device],
    current: &[Device],
    pairs: &Vec<(usize, usize)>,
    which: u8,
    comparable: bool,
    out: &mut Vec<DeviceChange>,
)
    requires
        forall|k: int| 0 <= k < pairs@.len() ==> (#[trigger] pairs@[k]).0 < previous@.len() && pairs@[k].1 < current@.len(),
    ensures
        change_view(final(out)@) == change_view(old(out)@) + tagged(
            kind_of(which as int),
            pair_details(previous@, current@, pair_view(pairs@), pairs@.len() as int, which as int, comparable),
        ),
        final(out)@.len() >= old(out)@.len(),
        forall|k: int| 0 <= k < old(out)@.len() ==> final(out)@[k] == old(out)@[k],
        forall|k: int|
            0 <= k < final(out)@.len() - old(out)@.len() ==> origin_ok(
                previous@,
                current@,
                #[trigger] final(out)@[old(out)@.len() + k],
                pair_origins(previous@, current@, pair_view(pairs@), pairs@.len() as int, which as int, comparable)[k],
            ),
{
    let ghost start = change_view(out@);
    let ghost out0 = out@;
    let mut i: usize = 0;
    while i < pairs.len()
        invariant
            i <= pairs@.len(),
            forall|k: int| 0 <= k < pairs@.len() ==> (#[trigger] pairs@[k]).0 < previous@.len() && pairs@[k].1 < current@.len(),
            change_view(out@) == start + tagged(
                kind_of(which as int),
                pair_details(previous@, current@, pair_view(pairs@), i as int, which as int, comparable),
            ),
            out0 == old(out)@,
            start == change_view(out0),
            out@.len() >= out0.len(),
            forall|k: int| 0 <= k < out0.len() ==> out@[k] == out0[k],
            forall|k: int|
                0 <= k < out@.len() - out0.len() ==> origin_ok(
                    previous@,
                    current@,
                    #[trigger] out@[out0.len() + k],
                    pair_origins(previous@, current@, pair_view(pairs@), i as int, which as int, comparable)[k],
                ),
            out@.len() - out0.len() == pair_origins(previous@, current@, pair_view(pairs@), i as int, which as int, comparable).len(),
        decreases pairs.len() - i,
    {
        let (bi, ci) = pairs[i];
        let b = &previous[bi];
        let d = &current[ci];
        let ghost pv = pair_view(pairs@);
        assert(pv[i as int] == (bi as int, ci as int));
        let ghost before = out@;
        let detail: Option<String> = if which == 1 || which == 4 {
            let bp = port_numbers(b);
            let dp = port_numbers(d);
            let l = if which == 1 {
                fresh(&dp, &bp)
            } else {
                fresh(&bp, &dp)
            };
            if comparable && l.len() > 0 {
                Some(port_change_detail(d, if which == 1 { "opened" } else { "closed" }, &l))
            } else {
                None
            }
        } else if which == 2 {
            if !same_text(&b.ip, &d.ip) {
                let mut s = d.display_name.clone();
                push_str(&mut s, " moved from ");
                push_str(&mut s, b.ip.as_str());
                push_str(&mut s, " to ");
                push_str(&mut s, d.ip.as_str());
                Some(s)
            } else {
                None
            }
        } else {
            let same = same_text(&b.display_name, &d.display_name);
            let was_address = same_text(&b.display_name, &b.ip);
            let nb = normalize_name(b.display_name.as_str());
            let nd = normalize_name(d.display_name.as_str());
            if !same && !was_address && !same_text(&nb, &nd) {
                let mut s = b.display_name.clone();
                push_str(&mut s, " is now identified as ");
                push_str(&mut s, d.display_name.as_str());
                Some(s)
            } else {
                None
            }
        };
        let ghost rest = pair_details(previous@, current@, pv, i as int, which as int, comparable);
        match detail {
            Some(text) => {
                let ghost tv = text@;
                assert(pair_details(previous@, current@, pv, i + 1, which as int, comparable) == rest.push(tv));
                let kind = kind_for(which);
                let dc = d.clone();
                let bc = b.clone();
                out.push(DeviceChange {
                    kind,
                    device: dc,
                    previous: Some(bc),
                    detail: text,
                });
                proof {
                    let po = pair_origins(previous@, current@, pv, i as int, which as int, comparable);
                    assert(pair_origins(previous@, current@, pv, i + 1, which as int, comparable) == po.push(
                        (true, ci as int, Some(bi as int)),
                    ));
                    assert(change_view(out@) =~= change_view(before).push((kind_of(which as int), tv)));
                    assert(tagged(kind_of(which as int), rest.push(tv)) =~= tagged(kind_of(which as int), rest).push((kind_of(which as int), tv)));
                }
            },
            None => {
                assert(pair_details(previous@, current@, pv, i + 1, which as int, comparable) == rest);
                assert(pair_origins(previous@, current@, pv, i + 1, which as int, comparable) == pair_origins(
                    previous@,
                    current@,
                    pv,
                    i as int,
                    which as int,
                    comparable,
                ));
            },
        }
        i += 1;
    }
}

/// The changes between two runs.
///
/// Port deltas are only meaningful when both runs probed the same ports —
/// otherwise a quick scan after a standard one reports every IoT port as
/// "closed" purely because it was never probed.
pub fn diff(
    from_id: &str,
    previous: &[Device],
    previous_profile: PortProfile,
    to_id: &str,
    current: &[Device],
    current_profile: PortProfile,
) -> (r: ScanDiff)
    ensures
        r.from_id@ == from_id@,
        r.to_id@ == to_id@,
        change_view(r.changes@) == diff_spec(previous@, current@, previous_profile == current_profile),
        r.changes@.len() == diff_origins(previous@, current@, previous_profile == current_profile).len(),
        forall|i: int|
            0 <= i < r.changes@.len() ==> origin_ok(
                previous@,
                current@,
                #[trigger] r.changes@[i],
                diff_origins(previous@, current@, previous_profile == current_profile)[i],
            ),
{
    let p = pair_devices(previous, current);
    let comparable = previous_profile == current_profile;
    let mut changes: Vec<DeviceChange> = Vec::new();
    let ghost pr = pairing(previous@, current@);
    let mut i: usize = 0;
    while i < p.added.len()
        invariant
            i <= p.added@.len(),
            index_view(p.added@) == pr.1,
            forall|k: int| 0 <= k < p.added@.len() ==> #[trigger] p.added@[k] < current@.len(),
            change_view(changes@) =~= tagged(ChangeKind::Appeared, Seq::new(i as nat, |k: int| appeared_text(current@[pr.1[k]]))),
            changes@.len() == i,
            forall|k: int| 0 <= k < i ==> origin_ok(previous@, current@, #[trigger] changes@[k], (true, pr.1[k], None::<int>)),
        decreases p.added.len() - i,
    {
        let d = &current[p.added[i]];
        let mut s = d.display_name.clone();
        push_str(&mut s, " (");
        push_str(&mut s, d.ip.as_str());
        push_str(&mut s, ") was not present in the previous scan");
        let ghost sv = s@;
        let ghost before = change_view(changes@);
        assert(pr.1[i as int] == p.added@[i as int] as int);
        assert(sv == appeared_text(current@[pr.1[i as int]]));
        let dc = d.clone();
        changes.push(DeviceChange { kind: ChangeKind::Appeared, device: dc, previous: None, detail: s });
        proof {
            assert(change_view(changes@) =~= before.push((ChangeKind::Appeared, sv)));
        }
        i += 1;
    }
    let ghost appeared = change_view(changes@);
    let ghost c0 = changes@;
    let ghost pv = pair_view(p.pairs@);
    let ghost npairs = p.pairs@.len() as int;
    proof {
        assert(pv == pr.0);
    }
    pair_stage(previous, current, &p.pairs, 1, comparable, &mut changes);
    let ghost c1 = changes@;
    pair_stage(previous, current, &p.pairs, 2, comparable, &mut changes);
    let ghost c2 = changes@;
    let ghost upto = change_view(changes@);
    proof {
        lemma_origins_len(previous@, current@, pv, npairs, 1, comparable);
        lemma_origins_len(previous@, current@, pv, npairs, 2, comparable);
        lemma_origins_len(previous@, current@, pv, npairs, 4, comparable);
        lemma_origins_len(previous@, current@, pv, npairs, 5, comparable);
    }
    let mut j: usize = 0;
    while j < p.removed.len()
        invariant
            j <= p.removed@.len(),
            index_view(p.removed@) == pr.2,
            forall|k: int| 0 <= k < p.removed@.len() ==> #[trigger] p.removed@[k] < previous@.len(),
            change_view(changes@) =~= upto + tagged(ChangeKind::Disappeared, Seq::new(j as nat, |k: int| disappeared_text(previous@[pr.2[k]]))),
            changes@.len() == c2.len() + j,
            forall|k: int| 0 <= k < c2.len() ==> changes@[k] == c2[k],
            forall|k: int| 0 <= k < j ==> origin_ok(previous@, current@, #[trigger] changes@[c2.len() + k], (false, pr.2[k], None::<int>)),
        decreases p.removed.len() - j,
    {
        let d = &previous[p.removed[j]];
        let mut s = d.display_name.clone();
        push_str(&mut s, " (");
        push_str(&mut s, d.ip.as_str());
        push_str(&mut s, ") is no longer responding");
        let ghost sv = s@;
        let ghost before = change_view(changes@);
        assert(pr.2[j as int] == p.removed@[j as int] as int);
        assert(sv == disappeared_text(previous@[pr.2[j as int]]));
        let dc = d.clone();
        changes.push(DeviceChange { kind: ChangeKind::Disappeared, device: dc, previous: None, detail: s });
        proof {
            assert(change_view(changes@) =~= before.push((ChangeKind::Disappeared, sv)));
        }
        j += 1;
    }
    let ghost c3 = changes@;
    pair_stage(previous, current, &p.pairs, 4, comparable, &mut changes);
    let ghost c4 = changes@;
    pair_stage(previous, current, &p.pairs, 5, comparable, &mut changes);
    proof {
        assert(pair_view(p.pairs@) == pr.0);
        assert(change_view(changes@) =~= diff_spec(previous@, current@, comparable));
        let os = diff_origins(previous@, current@, comparable);
        let o1 = pair_origins(previous@, current@, pv, npairs, 1, comparable);
        let o2 = pair_origins(previous@, current@, pv, npairs, 2, comparable);
        let o4 = pair_origins(previous@, current@, pv, npairs, 4, comparable);
        let o5 = pair_origins(previous@, current@, pv, npairs, 5, comparable);
        let na = pr.1.len() as int;
        let nd = pr.2.len() as int;
        assert(c0.len() == na);
        assert(c1.len() == na + o1.len());
        assert(c2.len() == na + o1.len() + o2.len());
        assert(c3.len() == c2.len() + nd);
        assert(c4.len() == c3.len() + o4.len());
        assert(changes@.len() == c4.len() + o5.len());
        assert(os.len() == changes@.len());
        assert forall|i: int| 0 <= i < changes@.len() implies origin_ok(previous@, current@, #[trigger] changes@[i], os[i]) by {
            if i < na {
                assert(changes@[i] == c0[i]);
                assert(os[i] == (true, pr.1[i], None::<int>));
            } else if i < c1.len() {
                assert(changes@[i] == c1[i]);
                assert(os[i] == o1[i - na]);
                assert(c1[i] == c1[c0.len() + (i - na)]);
            } else if i < c2.len() {
                assert(changes@[i] == c2[i]);
                assert(os[i] == o2[i - c1.len()]);
                assert(c2[i] == c2[c1.len() + (i - c1.len())]);
            } else if i < c3.len() {
                assert(changes@[i] == c3[i]);
                assert(os[i] == (false, pr.2[i - c2.len()], None::<int>));
                assert(c3[i] == c3[c2.len() + (i - c2.len())]);
            } else if i < c4.len() {
                assert(changes@[i] == c4[i]);
                assert(os[i] == o4[i - c3.len()]);
                assert(c4[i] == c4[c3.len() + (i - c3.len())]);
            } else {
                assert(os[i] == o5[i - c4.len()]);
                assert(changes@[i] == changes@[c4.len() + (i - c4.len())]);
            }
        }
    }
    ScanDiff { from_id: owned(from_id), to_id: owned(to_id), changes }
}

/* ------------------------------------------------------------------- history */

/// The first record at or after `i` with this address.
pub open spec fn first_at(devs: Seq<Device>, ip: Seq<char>, i: int) -> Option<int>
    decreases devs.len() - i,
{
    if i < 0 || i >= devs.len() {
        None
    } else if devs[i].ip@ == ip {
        Some(i)
    } else {
        first_at(devs, ip, i + 1)
    }
}

pub open spec fn first_seen_view(devs: Seq<Device>) -> Seq<Option<Seq<char>>> {
    Seq::new(devs.len(), |k: int| opt_view(devs[k].first_seen))
}

pub open spec fn opt_view(s: Option<String>) -> Option<Seq<char>> {
    match s {
        Some(t) => Some(t@),
        None => None,
    }
}

/// The `first_seen` stamps after the first `n` assignments (address, stamp),
/// each given to the first record at that address.
pub open spec fn assigned(
    devs: Seq<Device>,
    a: Seq<(Seq<char>, Seq<char>)>,
    n: int,
) -> Seq<Option<Seq<char>>>
    decreases n,
{
    if n <= 0 {
        first_seen_view(devs)
    } else {
        let prev = assigned(devs, a, n - 1);
        match first_at(devs, a[n - 1].0, 0) {
            Some(k) => prev.update(k, Some(a[n - 1].1)),
            None => prev,
        }
    }
}

/// What each paired or new record is first seen at: a paired record inherits
/// its predecessor's stamp (or the previous run's start), a new one is first
/// seen now.
pub open spec fn history_assignments(
    prev: Seq<Device>,
    prev_started: Seq<char>,
    cur: Seq<Device>,
    started: Seq<char>,
) -> Seq<(Seq<char>, Seq<char>)> {
    let p = pairing(prev, cur);
    Seq::new(
        p.0.len(),
        |k: int|
            (
                cur[p.0[k].1].ip@,
                match prev[p.0[k].0].first_seen {
                    Some(f) => f@,
                    None => prev_started,
                },
            ),
    ) + Seq::new(p.1.len(), |k: int| (cur[p.1[k]].ip@, started))
}

/// Only `first_seen` differs between the records.
pub open spec fn same_but_first_seen(a: Seq<Device>, b: Seq<Device>) -> bool {
    &&& a.len() == b.len()
    &&& forall|k: int| 0 <= k < a.len() ==> #[trigger] b[k] == (Device { first_seen: b[k].first_seen, ..a[k] })
}

fn first_index(devs: &Vec<Device>, ip: &String) -> (r: Option<usize>)
    ensures
        r matches Some(k) ==> first_at(devs@, ip@, 0) == Some(k as int) && k < devs@.len(),
        r is None ==> first_at(devs@, ip@, 0) is None,
{
    let mut i: usize = 0;
    while i < devs.len()
        invariant
            i <= devs@.len(),
            first_at(devs@, ip@, 0) == first_at(devs@, ip@, i as int),
        decreases devs.len() - i,
    {
        if same_text(&devs[i].ip, ip) {
            return Some(i);
        }
        i += 1;
    }
    None
}

proof fn lemma_first_at_same(a: Seq<Device>, b: Seq<Device>, ip: Seq<char>, i: int)
    requires
        same_but_first_seen(a, b),
    ensures
        first_at(a, ip, i) == first_at(b, ip, i),
    decreases a.len() - i,
{
    if 0 <= i < a.len() {
        assert(b[i].ip == a[i].ip);
        lemma_first_at_same(a, b, ip, i + 1);
    }
}

/// Carries `first_seen` forward using the same pairing rules as the diff, so
/// "NEW" in the device table can never disagree with "appeared" in the changes.
///
/// Without a previous run there is no baseline: every record keeps or gets
/// the current start as its first sighting, and the run is reported as a
/// baseline so the UI does not label every device as newly appeared.
pub fn apply_history(
    current: &mut Vec<Device>,
    started_at: &str,
    previous: Option<(&[Device], &str)>,
) -> (baseline: bool)
    ensures
        same_but_first_seen(old(current)@, final(current)@),
        baseline == previous is None,
        previous is None ==> forall|k: int|
            0 <= k < final(current)@.len() ==> opt_view(#[trigger] final(current)@[k].first_seen) == Some(
                match old(current)@[k].first_seen {
                    Some(f) => f@,
                    None => started_at@,
                },
            ),
        previous matches Some(p) ==> {
            let a = history_assignments(p.0@, p.1@, old(current)@, started_at@);
            first_seen_view(final(current)@) == assigned(old(current)@, a, a.len() as int)
        },
{
    let (prev, prev_started) = match previous {
        Some(p) => p,
        None => {
            let mut k: usize = 0;
            while k < current.len()
                invariant
                    k <= current@.len(),
                    same_but_first_seen(old(current)@, current@),
                    forall|j: int|
                        0 <= j < k ==> opt_view(#[trigger] current@[j].first_seen) == Some(
                            match old(current)@[j].first_seen {
                                Some(f) => f@,
                                None => started_at@,
                            },
                        ),
                    forall|j: int| k <= j < current@.len() ==> #[trigger] current@[j] == old(current)@[j],
                decreases current.len() - k,
            {
                if current[k].first_seen.is_none() {
                    current[k].first_seen = Some(owned(started_at));
                }
                k += 1;
            }
            return true;
        },
    };
    let p = pair_devices(prev, current.as_slice());
    let mut assignments: Vec<(String, String)> = Vec::new();
    let ghost a = history_assignments(prev@, prev_started@, current@, started_at@);
    let ghost pr = pairing(prev@, current@);
    let mut i: usize = 0;
    while i < p.pairs.len()
        invariant
            i <= p.pairs@.len(),
            pair_view(p.pairs@) == pr.0,
            forall|k: int| 0 <= k < p.pairs@.len() ==> (#[trigger] p.pairs@[k]).0 < prev@.len() && p.pairs@[k].1 < current@.len(),
            current@ == old(current)@,
            a == history_assignments(prev@, prev_started@, current@, started_at@),
            a.len() == pr.0.len() + pr.1.len(),
            pr == pairing(prev@, current@),
            assignments@.len() == i,
            forall|k: int| 0 <= k < i ==> (#[trigger] assignments@[k].0@, assignments@[k].1@) == a[k],
        decreases p.pairs.len() - i,
    {
        let (bi, ci) = p.pairs[i];
        let inherited = match &prev[bi].first_seen {
            Some(f) => f.clone(),
            None => owned(prev_started),
        };
        assert(pr.0[i as int] == (bi as int, ci as int));
        let ghost iv = inherited@;
        assert((current@[ci as int].ip@, iv) == a[i as int]);
        assignments.push((current[ci].ip.clone(), inherited));
        assert((assignments@[i as int].0@, assignments@[i as int].1@) == a[i as int]);
        i += 1;
    }
    let mut j: usize = 0;
    while j < p.added.len()
        invariant
            j <= p.added@.len(),
            index_view(p.added@) == pr.1,
            forall|k: int| 0 <= k < p.added@.len() ==> #[trigger] p.added@[k] < current@.len(),
            current@ == old(current)@,
            a == history_assignments(prev@, prev_started@, current@, started_at@),
            pr == pairing(prev@, current@),
            a.len() == pr.0.len() + pr.1.len(),
            pr.0.len() == p.pairs@.len(),
            assignments@.len() == p.pairs@.len() + j,
            forall|k: int| 0 <= k < p.pairs@.len() + j ==> (#[trigger] assignments@[k].0@, assignments@[k].1@) == a[k],
        decreases p.added.len() - j,
    {
        let ci = p.added[j];
        assert(pr.1[j as int] == ci as int);
        assert((current@[ci as int].ip@, started_at@) == a[p.pairs@.len() + j]);
        assignments.push((current[ci].ip.clone(), owned(started_at)));
        assert((assignments@[p.pairs@.len() + j].0@, assignments@[p.pairs@.len() + j].1@) == a[p.pairs@.len() + j]);
        j += 1;
    }
    assert(a.len() == assignments@.len());
    let mut n: usize = 0;
    while n < assignments.len()
        invariant
            n <= assignments@.len(),
            a.len() == assignments@.len(),
            forall|k: int| 0 <= k < assignments@.len() ==> (#[trigger] assignments@[k].0@, assignments@[k].1@) == a[k],
            same_but_first_seen(old(current)@, current@),
            first_seen_view(current@) == assigned(old(current)@, a, n as int),
        decreases assignments.len() - n,
    {
        let ghost before = current@;
        proof {
            lemma_first_at_same(old(current)@, current@, assignments@[n as int].0@, 0);
        }
        if let Some(k) = first_index(current, &assignments[n].0) {
            current[k].first_seen = Some(assignments[n].1.clone());
            proof {
                assert(first_seen_view(current@) =~= first_seen_view(before).update(k as int, Some(a[n as int].1)));
            }
        }
        n += 1;
    }
    false
}

} // verus!
